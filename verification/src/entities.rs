//! Fixed-capacity arena of generation-checked slots that tracks each
//! slot's identifier beside a plain optional payload (the payload itself
//! carries no handle), plus the delta codec over two of its snapshots.

use crate::deltaserializable::DecodeError;
use crate::deltaserializable::DeltaSerializable;
use crate::entity::u16_hi;
use crate::entity::u16_lo;
use crate::entity::u16_of_bytes;
use crate::entity::lemma_u16_bytes_inverse;
use crate::slots::first_free_local;
use crate::slots::first_free_replicated;
use crate::slots::live_ids;
use crate::slots::live_ids_from;
use crate::slots::merge_replicated;
use crate::slots::occupied_count;
use crate::slots::occupied_count_from;
use crate::slots::scan_free;
use crate::CAPACITY;
use crate::HALF_CAPACITY;
use vstd::prelude::*;

verus! {

/// Handle addressing one occupancy of one arena slot, tracked by the
/// arena itself rather than by the stored payload.
#[derive(Copy, Clone, PartialEq, Eq, Structural, Default, Debug)]
pub struct EntityID {
    pub index: u16,
    pub generation: u16,
}

/// Big-endian encoding of an identifier: index first, then generation.
pub open spec fn entity_id_bytes(id: EntityID) -> Seq<u8> {
    seq![u16_hi(id.index), u16_lo(id.index), u16_hi(id.generation), u16_lo(id.generation)]
}

/// The identifier whose big-endian encoding is the four bytes `b`.
pub open spec fn entity_id_of_bytes(b: Seq<u8>) -> EntityID
    recommends
        b.len() == 4,
{
    EntityID { index: u16_of_bytes(b[0], b[1]), generation: u16_of_bytes(b[2], b[3]) }
}

/// Parsing inverts encoding: the four bytes of `id` parse back to `id`.
pub proof fn lemma_entity_id_bytes_inverse(id: EntityID)
    ensures
        entity_id_of_bytes(entity_id_bytes(id)) == id,
{
    lemma_u16_bytes_inverse(id.index);
    lemma_u16_bytes_inverse(id.generation);
}

impl EntityID {
    /// Big-endian encoding `[index hi, index lo, generation hi, generation lo]`.
    pub fn to_be_bytes(&self) -> (r: [u8; 4])
        ensures
            r@ == entity_id_bytes(*self),
    {
        proof {
            let ix = self.index;
            let gn = self.generation;
            assert(ix >> 8 < 256 && ix & 0xff < 256) by (bit_vector);
            assert(gn >> 8 < 256 && gn & 0xff < 256) by (bit_vector);
        }
        let r = [
            (self.index >> 8) as u8,
            (self.index & 0xff) as u8,
            (self.generation >> 8) as u8,
            (self.generation & 0xff) as u8,
        ];
        proof {
            assert(r@ =~= entity_id_bytes(*self));
        }
        r
    }

    /// The identifier encoded big-endian in the four bytes given.
    pub fn from_be_bytes(bytes: [u8; 4]) -> (r: Self)
        ensures
            r == entity_id_of_bytes(bytes@),
    {
        EntityID {
            index: ((bytes[0] as u16) << 8) | (bytes[1] as u16),
            generation: ((bytes[2] as u16) << 8) | (bytes[3] as u16),
        }
    }
}

/// The arena: a fixed-length sequence of slots, each pairing the
/// identifier it last issued with an optional payload.  The first half of
/// the slots is the replicated range, the second half the local range.
#[derive(Clone, PartialEq, Debug)]
pub struct Entities<T> {
    entities: Vec<(EntityID, Option<T>)>,
}

impl<T> View for Entities<T> {
    type V = Seq<(EntityID, Option<T>)>;

    closed spec fn view(&self) -> Seq<(EntityID, Option<T>)> {
        self.entities@
    }
}

/// Slot `i` is well formed: its identifier names position `i`.
pub open spec fn slot_ok<T>(s: (EntityID, Option<T>), i: int) -> bool {
    s.0.index as int == i
}

/// All slots of a snapshot are well formed and the snapshot has the fixed
/// arena length.
pub open spec fn wf_slots<T>(s: Seq<(EntityID, Option<T>)>) -> bool {
    &&& s.len() == CAPACITY
    &&& forall|i: int| 0 <= i < s.len() ==> slot_ok(#[trigger] s[i], i)
}

/// The slots of a freshly constructed arena: every slot empty, slot `i`
/// holding identifier `(i, 0)`.
pub open spec fn fresh_slots<T>() -> Seq<(EntityID, Option<T>)> {
    Seq::new(CAPACITY as nat, |i: int| (EntityID { index: i as u16, generation: 0 }, None))
}

/// Lookup: the payload at `id.index`, provided that slot still carries
/// exactly the generation `id` names and is occupied; `None` otherwise.
pub open spec fn slots_get<T>(s: Seq<(EntityID, Option<T>)>, id: EntityID) -> Option<T> {
    if (id.index as int) < s.len() && s[id.index as int].0 == id {
        s[id.index as int].1
    } else {
        None
    }
}

/// Base value a changed slot's payload delta is computed against: the
/// previous occupant when the slot was occupied in the base snapshot,
/// else the payload type's baseline value.  Both encoder and decoder
/// derive the same base.
pub open spec fn slot_base<T: DeltaSerializable>(prev_slot: (EntityID, Option<T>)) -> T {
    match prev_slot.1 {
        Some(p) => p,
        None => T::spec_default(),
    }
}

/// Wire record of one slot: nothing when the slot is unchanged, else its
/// identifier (4 bytes big-endian), a one-byte occupancy flag, and, for
/// an occupied slot, the payload's own delta against the base value.
pub open spec fn record_bytes<T: DeltaSerializable>(
    cur_slot: (EntityID, Option<T>),
    prev_slot: (EntityID, Option<T>),
) -> Seq<u8> {
    if cur_slot == prev_slot {
        Seq::empty()
    } else {
        entity_id_bytes(cur_slot.0) + (match cur_slot.1 {
            None => seq![0u8],
            Some(c) => seq![1u8] + c.delta_bytes(&slot_base(prev_slot)),
        })
    }
}

/// Concatenated records of the replicated-half slots at positions `i` and
/// above, in ascending slot order.
pub open spec fn records_from<T: DeltaSerializable>(
    cur: Seq<(EntityID, Option<T>)>,
    prev: Seq<(EntityID, Option<T>)>,
    i: int,
) -> Seq<u8>
    decreases HALF_CAPACITY - i,
{
    if i < 0 || i >= HALF_CAPACITY {
        Seq::empty()
    } else {
        record_bytes(cur[i], prev[i]) + records_from(cur, prev, i + 1)
    }
}

/// The full delta log: records of every changed replicated-half slot, in
/// ascending slot order; unchanged slots cost zero bytes.
pub open spec fn spec_delta_bytes<T: DeltaSerializable>(
    cur: Seq<(EntityID, Option<T>)>,
    prev: Seq<(EntityID, Option<T>)>,
) -> Seq<u8> {
    records_from(cur, prev, 0)
}

/// Meaning of a delta stream applied on top of the partial result `acc`
/// (initially the base snapshot): records are read until the stream is
/// exhausted exactly at a record boundary; a short read mid-record, an
/// out-of-range index or a payload the stored type cannot decode is a
/// malformed stream.
pub open spec fn decode_from<T: DeltaSerializable>(
    prev: Seq<(EntityID, Option<T>)>,
    acc: Seq<(EntityID, Option<T>)>,
    stream: Seq<u8>,
) -> Option<Seq<(EntityID, Option<T>)>>
    decreases stream.len(),
{
    if stream.len() == 0 {
        Some(acc)
    } else if stream.len() < 5 {
        None
    } else {
        let id = entity_id_of_bytes(stream.subrange(0, 4));
        if id.index as int >= CAPACITY {
            None
        } else if stream[4] == 0 {
            decode_from(prev, acc.update(id.index as int, (id, None)), stream.skip(5))
        } else {
            match T::spec_decoded(&slot_base(prev[id.index as int]), stream.skip(5)) {
                Some(v_n) => {
                    if 0 <= v_n.1 <= stream.len() - 5 {
                        decode_from(
                            prev,
                            acc.update(id.index as int, (id, Some(v_n.0))),
                            stream.skip(5 + v_n.1),
                        )
                    } else {
                        None
                    }
                },
                None => None,
            }
        }
    }
}

/// What decoding a delta stream against the base snapshot `prev` yields.
pub open spec fn spec_delta_decode<T: DeltaSerializable>(
    prev: Seq<(EntityID, Option<T>)>,
    stream: Seq<u8>,
) -> Option<Seq<(EntityID, Option<T>)>> {
    decode_from(prev, prev, stream)
}

impl<T: DeltaSerializable + Copy> Entities<T> {
    /// The arena's slots are well formed.
    pub open spec fn wf(&self) -> bool {
        wf_slots(self@)
    }

    /// Arena with every slot empty, slot `i` holding identifier `(i, 0)`.
    pub fn new() -> (r: Entities<T>)
        ensures
            r.wf(),
            r@ == fresh_slots::<T>(),
    {
        let mut entities: Vec<(EntityID, Option<T>)> = Vec::new();
        let mut i: usize = 0;
        while i < CAPACITY
            invariant
                i <= CAPACITY,
                entities@.len() == i,
                forall|j: int| 0 <= j < i ==> #[trigger] entities@[j] == (
                    EntityID { index: j as u16, generation: 0 },
                    None::<T>,
                ),
            decreases CAPACITY - i,
        {
            entities.push((EntityID { index: i as u16, generation: 0 }, None));
            i += 1;
        }
        let r = Entities { entities };
        proof {
            assert(r@ =~= fresh_slots::<T>());
        }
        r
    }

    /// Independent full copy of the arena: same slots, same generations.
    pub fn snapshot(&self) -> (r: Self)
        ensures
            r@ == self@,
    {
        let mut entities: Vec<(EntityID, Option<T>)> = Vec::new();
        let n = self.entities.len();
        let mut i: usize = 0;
        while i < n
            invariant
                i <= n,
                n == self@.len(),
                entities@ =~= self@.take(i as int),
            decreases n - i,
        {
            entities.push(self.entities[i]);
            i += 1;
        }
        proof {
            assert(entities@ =~= self@);
        }
        Entities { entities }
    }

    /// Mutable access to the live entity addressed by `id`: `Some`
    /// exactly when the slot still carries the generation `id` names and
    /// is occupied; an empty slot, an out-of-range index or a stale
    /// generation all give `None`.
    pub fn get_entity_mut(&mut self, id: EntityID) -> (r: Option<&mut T>)
        requires
            old(self).wf(),
        ensures
            match r {
                Some(p) => slots_get(old(self)@, id) == Some(*p) && final(self)@ == old(
                    self,
                )@.update(id.index as int, (id, Some(*final(p)))),
                None => slots_get(old(self)@, id) is None && final(self)@ == old(self)@,
            },
    {
        if (id.index as usize) < self.entities.len() {
            let e = &mut self.entities[id.index as usize];
            if e.0.index == id.index && e.0.generation == id.generation {
                if let Some(p) = &mut e.1 {
                    return Some(p);
                }
            }
        }
        None
    }

    /// Empty the slot addressed by `id` if it is occupied and still
    /// carries that exact generation; a stale or empty address is a
    /// no-op, not an error.  The slot keeps its generation, so the
    /// deleted handle stays stale forever.
    pub fn delete_entity(&mut self, id: EntityID)
        requires
            old(self).wf(),
        ensures
            final(self).wf(),
            final(self)@ == if slots_get(old(self)@, id) is Some {
                old(self)@.update(id.index as int, (id, None::<T>))
            } else {
                old(self)@
            },
    {
        if (id.index as usize) < self.entities.len() {
            let i = id.index as usize;
            let matches_slot = self.entities[i].0.index == id.index
                && self.entities[i].0.generation == id.generation;
            if matches_slot && self.entities[i].1.is_some() {
                self.entities[i] = (id, None);
                proof {
                    assert forall|j: int| 0 <= j < self@.len() implies slot_ok(
                        #[trigger] self@[j],
                        j,
                    ) by {
                        assert(slot_ok(old(self)@[j], j));
                    }
                }
            }
        }
    }

    /// Fresh traversal over the occupied slots, yielding each live
    /// entity's identifier in slot-position order, for updating entities
    /// through `get_entity_mut` while walking them.
    pub fn iter_mut(&mut self) -> (r: EntitiesIntoIterator)
        ensures
            final(self)@ == old(self)@,
            r.remaining() == live_ids(old(self)@),
    {
        let n = self.entities.len();
        let mut ids: Vec<EntityID> = Vec::new();
        let mut i: usize = 0;
        while i < n
            invariant
                i <= n,
                n == self@.len(),
                self@ == old(self)@,
                ids@ + live_ids_from(self@, i as int) == live_ids(self@),
            decreases n - i,
        {
            if self.entities[i].1.is_some() {
                let ghost ids_before = ids@;
                ids.push(self.entities[i].0);
                proof {
                    assert(ids@ + live_ids_from(self@, i as int + 1) =~= ids_before
                        + live_ids_from(self@, i as int));
                }
            } else {
                proof {
                    assert(live_ids_from(self@, i as int) =~= live_ids_from(self@, i as int + 1));
                }
            }
            i += 1;
        }
        let r = EntitiesIntoIterator { ids, pos: 0 };
        proof {
            assert(r.remaining() =~= live_ids(old(self)@));
        }
        r
    }

    /// Mark every slot empty.  Generations are not reset, so handles to
    /// the deleted entities remain correctly stale.
    pub fn clear(&mut self)
        requires
            old(self).wf(),
        ensures
            final(self).wf(),
            final(self)@ == Seq::new(
                old(self)@.len(),
                |j: int| (old(self)@[j].0, None::<T>),
            ),
    {
        let n = self.entities.len();
        let mut i: usize = 0;
        while i < n
            invariant
                i <= n,
                n == self@.len(),
                self@.len() == old(self)@.len(),
                forall|j: int| 0 <= j < i ==> #[trigger] self@[j] == (old(self)@[j].0, None::<T>),
                forall|j: int| i <= j < n ==> #[trigger] self@[j] == old(self)@[j],
            decreases n - i,
        {
            let slot_id = self.entities[i].0;
            self.entities[i] = (slot_id, None);
            i += 1;
        }
        proof {
            assert(self@ =~= Seq::new(old(self)@.len(), |j: int| (old(self)@[j].0, None::<T>)));
            assert forall|j: int| 0 <= j < self@.len() implies slot_ok(#[trigger] self@[j], j) by {
                assert(slot_ok(old(self)@[j], j));
            }
        }
    }

    /// Count of occupied slots; recomputed by a full scan, as the arena
    /// maintains no counter.
    pub fn len(&self) -> (r: usize)
        ensures
            r == occupied_count(self@),
    {
        let n = self.entities.len();
        let mut count: usize = 0;
        let mut i: usize = 0;
        while i < n
            invariant
                i <= n,
                n == self@.len(),
                count <= i,
                count + occupied_count_from(self@, i as int) == occupied_count(self@),
            decreases n - i,
        {
            if self.entities[i].1.is_some() {
                count += 1;
            }
            i += 1;
        }
        count
    }

    /// Index of the first empty slot in `[lo, hi)`, scanning upward.
    fn find_free_ascending(&self, lo: usize, hi: usize) -> (r: Option<usize>)
        requires
            lo <= hi <= self@.len(),
        ensures
            match r {
                Some(j) => scan_free(self@, lo as int, hi as int, true) == Some(j as int) && lo
                    <= j < hi && self@[j as int].1 is None,
                None => scan_free(self@, lo as int, hi as int, true) is None,
            },
    {
        let mut i = lo;
        while i < hi
            invariant
                lo <= i <= hi <= self@.len(),
                scan_free(self@, lo as int, hi as int, true) == scan_free(
                    self@,
                    i as int,
                    hi as int,
                    true,
                ),
            decreases hi - i,
        {
            if self.entities[i].1.is_none() {
                return Some(i);
            }
            i += 1;
        }
        None
    }

    /// Index of the first empty slot in `[lo, hi)`, scanning downward.
    fn find_free_descending(&self, lo: usize, hi: usize) -> (r: Option<usize>)
        requires
            lo <= hi <= self@.len(),
        ensures
            match r {
                Some(j) => scan_free(self@, lo as int, hi as int, false) == Some(j as int) && lo
                    <= j < hi && self@[j as int].1 is None,
                None => scan_free(self@, lo as int, hi as int, false) is None,
            },
    {
        let mut i = hi;
        while i > lo
            invariant
                lo <= i <= hi <= self@.len(),
                scan_free(self@, lo as int, hi as int, false) == scan_free(
                    self@,
                    lo as int,
                    i as int,
                    false,
                ),
            decreases i,
        {
            i -= 1;
            if self.entities[i].1.is_none() {
                return Some(i);
            }
        }
        None
    }

    /// Take the first empty slot the scan of `[lo, hi)` finds, bump its
    /// generation, occupy it with the payload type's baseline value, and
    /// return the slot's fresh identifier; `None` when the range is full.
    fn new_entity_internal(&mut self, lo: usize, hi: usize, ascending: bool) -> (r: Option<
        EntityID,
    >)
        requires
            old(self).wf(),
            lo <= hi <= CAPACITY,
            scan_free(old(self)@, lo as int, hi as int, ascending) matches Some(j) ==> old(
                self,
            )@[j].0.generation < 0xffff,
        ensures
            final(self).wf(),
            match r {
                Some(id) => {
                    &&& scan_free(old(self)@, lo as int, hi as int, ascending) == Some(
                        id.index as int,
                    )
                    &&& old(self)@[id.index as int].1 is None
                    &&& id.generation == old(self)@[id.index as int].0.generation + 1
                    &&& final(self)@ == old(self)@.update(
                        id.index as int,
                        (id, Some(T::spec_default())),
                    )
                },
                None => {
                    &&& scan_free(old(self)@, lo as int, hi as int, ascending) is None
                    &&& final(self)@ == old(self)@
                },
            },
    {
        let found = if ascending {
            self.find_free_ascending(lo, hi)
        } else {
            self.find_free_descending(lo, hi)
        };
        match found {
            Some(i) => {
                let slot_id = self.entities[i].0;
                proof {
                    assert(slot_ok(self@[i as int], i as int));
                }
                let id = EntityID { index: slot_id.index, generation: slot_id.generation + 1 };
                let payload = T::default_value();
                self.entities[i] = (id, Some(payload));
                proof {
                    assert forall|j: int| 0 <= j < self@.len() implies slot_ok(
                        #[trigger] self@[j],
                        j,
                    ) by {
                        assert(slot_ok(old(self)@[j], j));
                    }
                }
                Some(id)
            },
            None => None,
        }
    }

    /// Allocate in the replicated half, scanning upward from slot 0:
    /// occupy the lowest empty slot there with the baseline payload and
    /// return its identifier; `None` when the replicated half is full.
    pub fn new_entity_replicated(&mut self) -> (r: Option<EntityID>)
        requires
            old(self).wf(),
            first_free_replicated(old(self)@) matches Some(j) ==> old(self)@[j].0.generation
                < 0xffff,
        ensures
            final(self).wf(),
            match r {
                Some(id) => {
                    &&& first_free_replicated(old(self)@) == Some(id.index as int)
                    &&& old(self)@[id.index as int].1 is None
                    &&& id.generation == old(self)@[id.index as int].0.generation + 1
                    &&& final(self)@ == old(self)@.update(
                        id.index as int,
                        (id, Some(T::spec_default())),
                    )
                },
                None => {
                    &&& first_free_replicated(old(self)@) is None
                    &&& final(self)@ == old(self)@
                },
            },
    {
        self.new_entity_internal(0, HALF_CAPACITY, true)
    }

    /// Allocate in the local half, scanning downward from its top: occupy
    /// the highest empty slot there with the baseline payload and return
    /// its identifier; `None` when the local half is full.  Local
    /// entities are never delta-encoded.
    pub fn new_entity(&mut self) -> (r: Option<EntityID>)
        requires
            old(self).wf(),
            first_free_local(old(self)@) matches Some(j) ==> old(self)@[j].0.generation < 0xffff,
        ensures
            final(self).wf(),
            match r {
                Some(id) => {
                    &&& first_free_local(old(self)@) == Some(id.index as int)
                    &&& old(self)@[id.index as int].1 is None
                    &&& id.generation == old(self)@[id.index as int].0.generation + 1
                    &&& final(self)@ == old(self)@.update(
                        id.index as int,
                        (id, Some(T::spec_default())),
                    )
                },
                None => {
                    &&& first_free_local(old(self)@) is None
                    &&& final(self)@ == old(self)@
                },
            },
    {
        self.new_entity_internal(HALF_CAPACITY, 2 * HALF_CAPACITY, false)
    }

    /// Append to `out` the delta log of `self` against the base snapshot
    /// `previous`: one record per replicated-half slot that differs,
    /// ascending by slot position; unchanged slots cost zero bytes.
    /// Returns the number of bytes written.
    pub fn delta_serialize(&self, previous: &Self, out: &mut Vec<u8>) -> (n: usize)
        requires
            self.wf(),
            previous.wf(),
        ensures
            final(out)@ == old(out)@ + spec_delta_bytes(self@, previous@),
            n == spec_delta_bytes(self@, previous@).len(),
    {
        let base_len = out.len();
        let mut i: usize = 0;
        let ghost mut done: Seq<u8> = Seq::empty();
        proof {
            assert(out@ =~= old(out)@ + done);
        }
        while i < HALF_CAPACITY
            invariant
                self.wf(),
                previous.wf(),
                i <= HALF_CAPACITY,
                base_len == old(out)@.len(),
                out@ == old(out)@ + done,
                done + records_from(self@, previous@, i as int) == spec_delta_bytes(
                    self@,
                    previous@,
                ),
            decreases HALF_CAPACITY - i,
        {
            let ghost out_before = out@;
            let cs = &self.entities[i];
            let ps = &previous.entities[i];
            let ids_equal = cs.0.index == ps.0.index && cs.0.generation == ps.0.generation;
            let payload_equal = match (&cs.1, &ps.1) {
                (Some(a), Some(b)) => a.value_eq(b),
                (None, None) => true,
                _ => false,
            };
            if ids_equal && payload_equal {
                proof {
                    assert(self@[i as int] =~= previous@[i as int]);
                    assert(record_bytes(self@[i as int], previous@[i as int])
                        =~= Seq::<u8>::empty());
                    assert(records_from(self@, previous@, i as int) == records_from(
                        self@,
                        previous@,
                        i as int + 1,
                    ));
                }
            } else {
                let idb = cs.0.to_be_bytes();
                out.push(idb[0]);
                out.push(idb[1]);
                out.push(idb[2]);
                out.push(idb[3]);
                match &cs.1 {
                    None => {
                        out.push(0u8);
                        proof {
                            assert(self@[i as int] != previous@[i as int]);
                            assert(out@ =~= out_before + record_bytes(
                                self@[i as int],
                                previous@[i as int],
                            ));
                        }
                    },
                    Some(c_ref) => {
                        out.push(1u8);
                        let c = *c_ref;
                        let base = match &ps.1 {
                            Some(p) => *p,
                            None => T::default_value(),
                        };
                        proof {
                            assert(base == slot_base(previous@[i as int]));
                        }
                        c.delta_serialize(&base, out);
                        proof {
                            assert(self@[i as int] != previous@[i as int]);
                            assert(out@ =~= out_before + record_bytes(
                                self@[i as int],
                                previous@[i as int],
                            ));
                        }
                    },
                }
                proof {
                    done = done + record_bytes(self@[i as int], previous@[i as int]);
                    assert(out@ =~= old(out)@ + done);
                    assert(done + records_from(self@, previous@, i as int + 1) =~= spec_delta_bytes(
                        self@,
                        previous@,
                    ));
                }
            }
            i += 1;
        }
        proof {
            assert(records_from(self@, previous@, HALF_CAPACITY as int) == Seq::<u8>::empty());
            assert(done =~= spec_delta_bytes(self@, previous@));
        }
        out.len() - base_len
    }

    /// Decode a delta log against the base snapshot `previous`: start
    /// from a copy of `previous`, apply one record after another, and
    /// stop cleanly when the stream ends exactly at a record boundary.  A
    /// truncated record, an out-of-range slot index or an undecodable
    /// payload is a malformed stream and yields an error, never a partial
    /// result.
    pub fn delta_deserialize(previous: &Self, stream: &[u8]) -> (r: Result<Self, DecodeError>)
        requires
            previous.wf(),
        ensures
            match spec_delta_decode(previous@, stream@) {
                Some(m) => r matches Ok(c) && c@ == m && c.wf(),
                None => r is Err,
            },
    {
        let mut current = previous.snapshot();
        let n = stream.len();
        let mut pos: usize = 0;
        proof {
            assert(stream@.skip(0) =~= stream@);
        }
        loop
            invariant
                previous.wf(),
                current.wf(),
                pos <= n,
                n == stream@.len(),
                decode_from(previous@, current@, stream@.skip(pos as int)) == spec_delta_decode(
                    previous@,
                    stream@,
                ),
            decreases n - pos,
        {
            let ghost rest = stream@.skip(pos as int);
            if pos == n {
                proof {
                    assert(rest =~= Seq::<u8>::empty());
                }
                return Ok(current);
            }
            if n - pos < 5 {
                return Err(DecodeError::MalformedStream);
            }
            let id = EntityID::from_be_bytes(
                [stream[pos], stream[pos + 1], stream[pos + 2], stream[pos + 3]],
            );
            proof {
                assert([stream@[pos as int], stream@[pos as int + 1], stream@[pos as int + 2],
                    stream@[pos as int + 3]]@ =~= rest.subrange(0, 4));
                assert(id == entity_id_of_bytes(rest.subrange(0, 4)));
            }
            if (id.index as usize) >= CAPACITY {
                return Err(DecodeError::MalformedStream);
            }
            let flag = stream[pos + 4];
            proof {
                assert(flag == rest[4]);
            }
            if flag == 0 {
                current.entities[id.index as usize] = (id, None);
                proof {
                    assert forall|j: int| 0 <= j < current@.len() implies slot_ok(
                        #[trigger] current@[j],
                        j,
                    ) by {}
                    assert(rest.skip(5) =~= stream@.skip(pos as int + 5));
                }
                pos = pos + 5;
            } else {
                let base = match &previous.entities[id.index as usize].1 {
                    Some(p) => *p,
                    None => T::default_value(),
                };
                proof {
                    assert(base == slot_base(previous@[id.index as int]));
                    assert(rest.skip(5) =~= stream@.skip(pos as int + 5));
                }
                let mut p2: usize = pos + 5;
                let decoded = T::delta_deserialize(&base, stream, &mut p2);
                match decoded {
                    Err(_) => {
                        return Err(DecodeError::MalformedStream);
                    },
                    Ok(v) => {
                        proof {
                            T::lemma_decoded_len(&base, stream@.skip(pos as int + 5));
                        }
                        current.entities[id.index as usize] = (id, Some(v));
                        proof {
                            assert forall|j: int| 0 <= j < current@.len() implies slot_ok(
                                #[trigger] current@[j],
                                j,
                            ) by {}
                            assert(stream@.skip(p2 as int) =~= rest.skip(
                                5 + (p2 - pos - 5) as int,
                            ));
                        }
                        pos = p2;
                    },
                }
            }
        }
    }
}

/// Cursor over the identifiers of the entities that were live when
/// `iter_mut` was called, in slot-position order: each handle can be fed
/// to `get_entity_mut` to update the entity in place.  Each call to
/// `iter_mut` starts a fresh traversal.
pub struct EntitiesIntoIterator {
    ids: Vec<EntityID>,
    pos: usize,
}

impl EntitiesIntoIterator {
    /// The identifiers not yet yielded, in order.
    pub closed spec fn remaining(&self) -> Seq<EntityID> {
        if self.pos as int <= self.ids@.len() {
            self.ids@.skip(self.pos as int)
        } else {
            Seq::empty()
        }
    }

    /// Yield the next identifier, or `None` once the traversal is done.
    pub fn next(&mut self) -> (r: Option<EntityID>)
        ensures
            match r {
                Some(id) => old(self).remaining().len() > 0 && id == old(self).remaining()[0]
                    && final(self).remaining() == old(self).remaining().skip(1),
                None => old(self).remaining().len() == 0 && final(self).remaining() == old(
                    self,
                ).remaining(),
            },
    {
        if self.pos < self.ids.len() {
            let id = self.ids[self.pos];
            self.pos = self.pos + 1;
            proof {
                assert(self.ids@.skip(self.pos as int) =~= old(self).remaining().skip(1));
            }
            Some(id)
        } else {
            None
        }
    }
}

proof fn lemma_records_self<T: DeltaSerializable>(s: Seq<(EntityID, Option<T>)>, i: int)
    ensures
        records_from(s, s, i) == Seq::<u8>::empty(),
    decreases HALF_CAPACITY - i,
{
    if 0 <= i < HALF_CAPACITY {
        lemma_records_self(s, i + 1);
        assert(record_bytes(s[i], s[i]) + records_from(s, s, i + 1) =~= Seq::<u8>::empty());
    }
}

/// Idempotent no-op: encoding a snapshot against itself writes zero
/// bytes, for any snapshot.
pub proof fn lemma_delta_bytes_noop<T: DeltaSerializable>(s: Seq<(EntityID, Option<T>)>)
    ensures
        spec_delta_bytes(s, s) == Seq::<u8>::empty(),
{
    lemma_records_self(s, 0);
}

proof fn lemma_decode_records<T: DeltaSerializable>(
    cur: Seq<(EntityID, Option<T>)>,
    prev: Seq<(EntityID, Option<T>)>,
    acc: Seq<(EntityID, Option<T>)>,
    i: int,
)
    requires
        wf_slots(cur),
        wf_slots(prev),
        0 <= i <= HALF_CAPACITY,
        acc == merge_replicated(cur, prev, i),
    ensures
        decode_from(prev, acc, records_from(cur, prev, i)) == Some(
            merge_replicated(cur, prev, HALF_CAPACITY as int),
        ),
    decreases HALF_CAPACITY - i,
{
    if i == HALF_CAPACITY {
        assert(records_from(cur, prev, i) == Seq::<u8>::empty());
        assert(acc =~= merge_replicated(cur, prev, HALF_CAPACITY as int));
    } else {
        let r = record_bytes(cur[i], prev[i]);
        let rest = records_from(cur, prev, i + 1);
        assert(records_from(cur, prev, i) == r + rest);
        if cur[i] == prev[i] {
            assert(r + rest =~= rest);
            assert(merge_replicated(cur, prev, i) =~= merge_replicated(cur, prev, i + 1));
            lemma_decode_records(cur, prev, acc, i + 1);
        } else {
            let id = cur[i].0;
            assert(slot_ok(cur[i], i));
            lemma_entity_id_bytes_inverse(id);
            match cur[i].1 {
                None => {
                    let s = r + rest;
                    assert(s.subrange(0, 4) =~= entity_id_bytes(id));
                    assert(s[4] == 0);
                    let acc2 = acc.update(i, (id, None::<T>));
                    assert(cur[i] == (id, None::<T>));
                    assert(acc2 =~= merge_replicated(cur, prev, i + 1));
                    assert(s.skip(5) =~= rest);
                    lemma_decode_records(cur, prev, acc2, i + 1);
                    assert(decode_from(prev, acc, s) == decode_from(prev, acc2, rest));
                },
                Some(c) => {
                    let base = slot_base(prev[i]);
                    let delta = c.delta_bytes(&base);
                    let s = r + rest;
                    assert(s.subrange(0, 4) =~= entity_id_bytes(id));
                    assert(s[4] == 1);
                    assert(s.skip(5) =~= delta + rest);
                    c.lemma_delta_round_trip(&base, rest);
                    assert(T::spec_decoded(&base, delta + rest) == Some(
                        (c, delta.len() as int),
                    ));
                    let acc2 = acc.update(i, (id, Some(c)));
                    assert(cur[i] == (id, Some(c)));
                    assert(acc2 =~= merge_replicated(cur, prev, i + 1));
                    assert(s.skip(5 + delta.len() as int) =~= rest);
                    lemma_decode_records(cur, prev, acc2, i + 1);
                    assert(decode_from(prev, acc, s) == decode_from(prev, acc2, rest));
                },
            }
        }
    }
}

/// Round trip: decoding the delta log of `cur` against `prev`, applied to
/// `prev` itself, rebuilds `cur` on the whole replicated half and leaves
/// the local half exactly as `prev` had it — for any two well-formed
/// snapshots.
pub proof fn lemma_delta_round_trip<T: DeltaSerializable>(
    cur: Seq<(EntityID, Option<T>)>,
    prev: Seq<(EntityID, Option<T>)>,
)
    requires
        wf_slots(cur),
        wf_slots(prev),
    ensures
        spec_delta_decode(prev, spec_delta_bytes(cur, prev)) == Some(
            merge_replicated(cur, prev, HALF_CAPACITY as int),
        ),
{
    assert(prev =~= merge_replicated(cur, prev, 0));
    lemma_decode_records(cur, prev, prev, 0);
}

/// Generation safety: take a handle `id` whose slot was deleted (the slot
/// is empty and still carries generation `id.generation`, as
/// `delete_entity` leaves it).  However a later allocation reuses that
/// slot — yielding the fresh handle `id2`, with the slot's generation
/// bumped, as `new_entity_replicated` and `new_entity` ensure — the old
/// handle no longer resolves: the lookup of `id` is `None`, never the new
/// occupant.
pub proof fn lemma_generation_safety<T: DeltaSerializable>(
    after_delete: Seq<(EntityID, Option<T>)>,
    after_reuse: Seq<(EntityID, Option<T>)>,
    id: EntityID,
    id2: EntityID,
)
    requires
        wf_slots(after_delete),
        (id.index as int) < after_delete.len(),
        after_delete[id.index as int].1 is None,
        after_delete[id.index as int].0.generation == id.generation,
        id2.index == id.index,
        id2.generation == after_delete[id2.index as int].0.generation + 1,
        after_reuse == after_delete.update(id2.index as int, (id2, Some(T::spec_default()))),
    ensures
        slots_get(after_reuse, id) is None,
{
    assert(after_reuse[id.index as int].0 == id2);
    assert(id2.generation != id.generation);
}

} // verus!
