//! Fixed-capacity arena of generation-checked slots whose payloads carry
//! their own identifier, plus the delta codec over two of its snapshots.

use crate::deltaserializable::DecodeError;
use crate::deltaserializable::DeltaSerializable;
use crate::entity::Entity;
use crate::entity::ID;
use crate::entity::id_bytes;
use crate::entity::id_of_bytes;
use crate::entity::lemma_id_bytes_inverse;
use crate::slots::first_free_local;
use crate::slots::first_free_replicated;
use crate::slots::live_ids;
use crate::slots::live_ids_from;
use crate::slots::live_list;
use crate::slots::live_list_from;
use crate::slots::merge_replicated;
use crate::slots::occupied_count;
use crate::slots::occupied_count_from;
use crate::slots::scan_free;
use crate::CAPACITY;
use crate::HALF_CAPACITY;
use vstd::prelude::*;

verus! {

/// The arena: a fixed-length sequence of slots, each holding the
/// identifier it last issued and, when occupied, a live payload.  The
/// first half of the slots is the replicated range, the second half the
/// local range.
#[derive(Clone, PartialEq, Debug)]
pub struct Collection<T> where T: Entity {
    entities: Vec<(ID, Option<T>)>,
}

impl<T: Entity> View for Collection<T> {
    type V = Seq<(ID, Option<T>)>;

    closed spec fn view(&self) -> Seq<(ID, Option<T>)> {
        self.entities@
    }
}

/// Slot `i` is well formed: its identifier names position `i`, and a live
/// payload carries exactly the slot's identifier.
pub open spec fn slot_ok<T: Entity>(s: (ID, Option<T>), i: int) -> bool {
    &&& s.0.index as int == i
    &&& (s.1 matches Some(p) ==> p.spec_id() == s.0)
}

/// All slots of a snapshot are well formed and the snapshot has the fixed
/// arena length.
pub open spec fn wf_slots<T: Entity>(s: Seq<(ID, Option<T>)>) -> bool {
    &&& s.len() == CAPACITY
    &&& forall|i: int| 0 <= i < s.len() ==> slot_ok(#[trigger] s[i], i)
}

/// The slots of a freshly constructed arena: every slot empty, slot `i`
/// holding identifier `(i, 0)`.
pub open spec fn fresh_slots<T: Entity>() -> Seq<(ID, Option<T>)> {
    Seq::new(CAPACITY as nat, |i: int| (ID { index: i as u16, generation: 0 }, None))
}

/// Lookup: the payload at `id.index`, provided that slot is live and still
/// carries exactly the generation `id` names; `None` otherwise.
pub open spec fn slots_get<T: Entity>(s: Seq<(ID, Option<T>)>, id: ID) -> Option<T> {
    if (id.index as int) < s.len() && s[id.index as int].0 == id {
        s[id.index as int].1
    } else {
        None
    }
}

/// Base value a changed slot's payload delta is computed against: the
/// previous occupant when the slot was occupied in the base snapshot, else
/// a fresh payload built from the identifier carried by the record.  Both
/// encoder and decoder derive the same base.
pub open spec fn slot_base<T: Entity>(prev_slot: (ID, Option<T>), id: ID) -> T {
    match prev_slot.1 {
        Some(p) => p,
        None => T::spec_new(id),
    }
}

/// Wire record of one slot: nothing when the slot is unchanged, else its
/// identifier (4 bytes big-endian), a one-byte occupancy flag, and, for an
/// occupied slot, the payload's own delta against the base value.
pub open spec fn record_bytes<T: Entity>(
    cur_slot: (ID, Option<T>),
    prev_slot: (ID, Option<T>),
) -> Seq<u8> {
    if cur_slot == prev_slot {
        Seq::empty()
    } else {
        id_bytes(cur_slot.0) + (match cur_slot.1 {
            None => seq![0u8],
            Some(c) => seq![1u8] + c.delta_bytes(&slot_base(prev_slot, cur_slot.0)),
        })
    }
}

/// Concatenated records of the replicated-half slots at positions `i` and
/// above, in ascending slot order.
pub open spec fn records_from<T: Entity>(
    cur: Seq<(ID, Option<T>)>,
    prev: Seq<(ID, Option<T>)>,
    i: int,
) -> Seq<u8>
    decreases HALF_CAPACITY - i,
{
    if i < 0 || i >= HALF_CAPACITY {
        Seq::empty()
    } else {
        record_bytes(cur[i], prev[i]) + records_from(cur, prev, i + 1)
    }
}

/// The full delta log: records of every changed replicated-half slot, in
/// ascending slot order; unchanged slots cost zero bytes.
pub open spec fn spec_delta_bytes<T: Entity>(
    cur: Seq<(ID, Option<T>)>,
    prev: Seq<(ID, Option<T>)>,
) -> Seq<u8> {
    records_from(cur, prev, 0)
}

/// Meaning of a delta stream applied on top of the partial result `acc`
/// (initially the base snapshot): records are read until the stream is
/// exhausted exactly at a record boundary; a short read mid-record, an
/// out-of-range index, a payload the stored type cannot decode, or a
/// decoded payload that does not carry the record's identifier is a
/// malformed stream.
pub open spec fn decode_from<T: Entity>(
    prev: Seq<(ID, Option<T>)>,
    acc: Seq<(ID, Option<T>)>,
    stream: Seq<u8>,
) -> Option<Seq<(ID, Option<T>)>>
    decreases stream.len(),
{
    if stream.len() == 0 {
        Some(acc)
    } else if stream.len() < 5 {
        None
    } else {
        let id = id_of_bytes(stream.subrange(0, 4));
        if id.index as int >= CAPACITY {
            None
        } else if stream[4] == 0 {
            decode_from(prev, acc.update(id.index as int, (id, None)), stream.skip(5))
        } else {
            match T::spec_decoded(&slot_base(prev[id.index as int], id), stream.skip(5)) {
                Some(v_n) => {
                    if 0 <= v_n.1 <= stream.len() - 5 && v_n.0.spec_id() == id {
                        decode_from(
                            prev,
                            acc.update(id.index as int, (id, Some(v_n.0))),
                            stream.skip(5 + v_n.1),
                        )
                    } else {
                        None
                    }
                },
                None => None,
            }
        }
    }
}

/// What decoding a delta stream against the base snapshot `prev` yields.
pub open spec fn spec_delta_decode<T: Entity>(
    prev: Seq<(ID, Option<T>)>,
    stream: Seq<u8>,
) -> Option<Seq<(ID, Option<T>)>> {
    decode_from(prev, prev, stream)
}

impl<T: Entity> Collection<T> {
    /// The arena's slots are well formed.
    pub open spec fn wf(&self) -> bool {
        wf_slots(self@)
    }

    /// Independent full copy of the arena: same slots, same generations.
    /// Mutating the copy never affects the original, so it can serve as
    /// the held-back base snapshot for delta encoding.
    pub fn snapshot(&self) -> (r: Self)
        ensures
            r@ == self@,
    {
        let mut entities: Vec<(ID, Option<T>)> = Vec::new();
        let n = self.entities.len();
        let mut i: usize = 0;
        while i < n
            invariant
                i <= n,
                n == self@.len(),
                entities@ =~= self@.take(i as int),
            decreases n - i,
        {
            entities.push(self.entities[i]);
            i += 1;
        }
        proof {
            assert(entities@ =~= self@);
        }
        Collection { entities }
    }

    /// Payload of the live entity addressed by `id`: `Some` exactly when
    /// the slot is occupied and its occupant still carries the generation
    /// `id` names; an empty slot, an out-of-range index or a stale
    /// generation all give `None`.
    pub fn get_entity(&self, id: ID) -> (r: Option<&T>)
        requires
            self.wf(),
        ensures
            match r {
                Some(p) => slots_get(self@, id) == Some(*p),
                None => slots_get(self@, id) is None,
            },
    {
        if (id.index as usize) < self.entities.len() {
            let e = &self.entities[id.index as usize];
            if let Some(p) = &e.1 {
                if p.id() == id {
                    return Some(p);
                }
            }
        }
        None
    }

    /// Mutable access to the live entity addressed by `id`, under the
    /// same resolution rule as `get_entity`.  The slot afterwards holds
    /// whatever the caller leaves behind the reference; leaving the
    /// payload's identifier untouched keeps the arena well formed.
    pub fn get_entity_mut(&mut self, id: ID) -> (r: Option<&mut T>)
        requires
            old(self).wf(),
        ensures
            match r {
                Some(p) => slots_get(old(self)@, id) == Some(*p) && final(self)@ == old(
                    self,
                )@.update(id.index as int, (id, Some(*final(p)))),
                None => slots_get(old(self)@, id) is None && final(self)@ == old(self)@,
            },
    {
        if (id.index as usize) < self.entities.len() {
            let e = &mut self.entities[id.index as usize];
            if let Some(p) = &mut e.1 {
                if p.id() == id {
                    return Some(p);
                }
            }
        }
        None
    }

    /// Both-or-nothing lookup of two live entities: `Some` exactly when
    /// both identifiers resolve.
    pub fn get_entity_pair(&self, id1: ID, id2: ID) -> (r: Option<(&T, &T)>)
        requires
            self.wf(),
        ensures
            match r {
                Some(p) => slots_get(self@, id1) == Some(*p.0) && slots_get(self@, id2) == Some(
                    *p.1,
                ),
                None => slots_get(self@, id1) is None || slots_get(self@, id2) is None,
            },
    {
        if let Some(e1) = self.get_entity(id1) {
            if let Some(e2) = self.get_entity(id2) {
                return Some((e1, e2));
            }
        }
        None
    }

    /// Empty the slot addressed by `id` if it holds a live entity with
    /// that exact generation; a stale or empty address is a no-op, not an
    /// error.  The slot keeps its generation, so the deleted handle stays
    /// stale forever.
    pub fn delete_entity(&mut self, id: ID)
        requires
            old(self).wf(),
        ensures
            final(self).wf(),
            final(self)@ == if slots_get(old(self)@, id) is Some {
                old(self)@.update(id.index as int, (id, None::<T>))
            } else {
                old(self)@
            },
    {
        if (id.index as usize) < self.entities.len() {
            let i = id.index as usize;
            let live = match &self.entities[i].1 {
                Some(p) => p.id() == id,
                None => false,
            };
            if live {
                self.entities[i] = (id, None);
                proof {
                    assert forall|j: int| 0 <= j < self@.len() implies slot_ok(
                        #[trigger] self@[j],
                        j,
                    ) by {
                        assert(slot_ok(old(self)@[j], j));
                    }
                }
            }
        }
    }

    /// Mark every slot empty.  Generations are not reset, so handles to
    /// the deleted entities remain correctly stale.
    pub fn clear(&mut self)
        requires
            old(self).wf(),
        ensures
            final(self).wf(),
            final(self)@ == Seq::new(
                old(self)@.len(),
                |j: int| (old(self)@[j].0, None::<T>),
            ),
    {
        let n = self.entities.len();
        let mut i: usize = 0;
        while i < n
            invariant
                i <= n,
                n == self@.len(),
                self@.len() == old(self)@.len(),
                forall|j: int| 0 <= j < i ==> #[trigger] self@[j] == (old(self)@[j].0, None::<T>),
                forall|j: int| i <= j < n ==> #[trigger] self@[j] == old(self)@[j],
            decreases n - i,
        {
            let slot_id = self.entities[i].0;
            self.entities[i] = (slot_id, None);
            i += 1;
        }
        proof {
            assert(self@ =~= Seq::new(old(self)@.len(), |j: int| (old(self)@[j].0, None::<T>)));
            assert forall|j: int| 0 <= j < self@.len() implies slot_ok(#[trigger] self@[j], j) by {
                assert(slot_ok(old(self)@[j], j));
            }
        }
    }

    /// Fresh traversal over the occupied slots, yielding a copy of each
    /// live payload in slot-position order.
    pub fn iter(&self) -> (r: CollectionIntoIterator<T>)
        ensures
            r.remaining() == live_list(self@),
    {
        let n = self.entities.len();
        let mut items: Vec<T> = Vec::new();
        let mut i: usize = 0;
        while i < n
            invariant
                i <= n,
                n == self@.len(),
                items@ + live_list_from(self@, i as int) == live_list(self@),
            decreases n - i,
        {
            match &self.entities[i].1 {
                Some(p) => {
                    let ghost items_before = items@;
                    items.push(*p);
                    proof {
                        assert(items@ + live_list_from(self@, i as int + 1) =~= items_before
                            + live_list_from(self@, i as int));
                    }
                },
                None => {
                    proof {
                        assert(live_list_from(self@, i as int) =~= live_list_from(
                            self@,
                            i as int + 1,
                        ));
                    }
                },
            }
            i += 1;
        }
        let r = CollectionIntoIterator { items, pos: 0 };
        proof {
            assert(r.remaining() =~= live_list(self@));
        }
        r
    }

    /// Fresh traversal over the occupied slots, yielding each live
    /// entity's identifier in slot-position order, for updating entities
    /// through `get_entity_mut` while walking them.
    pub fn iter_mut(&mut self) -> (r: CollectionIntoIteratorMut)
        ensures
            final(self)@ == old(self)@,
            r.remaining() == live_ids(old(self)@),
    {
        let n = self.entities.len();
        let mut ids: Vec<ID> = Vec::new();
        let mut i: usize = 0;
        while i < n
            invariant
                i <= n,
                n == self@.len(),
                self@ == old(self)@,
                ids@ + live_ids_from(self@, i as int) == live_ids(self@),
            decreases n - i,
        {
            if self.entities[i].1.is_some() {
                let ghost ids_before = ids@;
                ids.push(self.entities[i].0);
                proof {
                    assert(ids@ + live_ids_from(self@, i as int + 1) =~= ids_before
                        + live_ids_from(self@, i as int));
                }
            } else {
                proof {
                    assert(live_ids_from(self@, i as int) =~= live_ids_from(self@, i as int + 1));
                }
            }
            i += 1;
        }
        let r = CollectionIntoIteratorMut { ids, pos: 0 };
        proof {
            assert(r.remaining() =~= live_ids(old(self)@));
        }
        r
    }

    /// Count of occupied slots; recomputed by a full scan, as the arena
    /// maintains no counter.
    pub fn len(&self) -> (r: usize)
        ensures
            r == occupied_count(self@),
    {
        let n = self.entities.len();
        let mut count: usize = 0;
        let mut i: usize = 0;
        while i < n
            invariant
                i <= n,
                n == self@.len(),
                count <= i,
                count + occupied_count_from(self@, i as int) == occupied_count(self@),
            decreases n - i,
        {
            if self.entities[i].1.is_some() {
                count += 1;
            }
            i += 1;
        }
        count
    }

    /// Index of the first empty slot in `[lo, hi)`, scanning upward.
    fn find_free_ascending(&self, lo: usize, hi: usize) -> (r: Option<usize>)
        requires
            lo <= hi <= self@.len(),
        ensures
            match r {
                Some(j) => scan_free(self@, lo as int, hi as int, true) == Some(j as int) && lo
                    <= j < hi && self@[j as int].1 is None,
                None => scan_free(self@, lo as int, hi as int, true) is None,
            },
    {
        let mut i = lo;
        while i < hi
            invariant
                lo <= i <= hi <= self@.len(),
                scan_free(self@, lo as int, hi as int, true) == scan_free(
                    self@,
                    i as int,
                    hi as int,
                    true,
                ),
            decreases hi - i,
        {
            if self.entities[i].1.is_none() {
                return Some(i);
            }
            i += 1;
        }
        None
    }

    /// Index of the first empty slot in `[lo, hi)`, scanning downward.
    fn find_free_descending(&self, lo: usize, hi: usize) -> (r: Option<usize>)
        requires
            lo <= hi <= self@.len(),
        ensures
            match r {
                Some(j) => scan_free(self@, lo as int, hi as int, false) == Some(j as int) && lo
                    <= j < hi && self@[j as int].1 is None,
                None => scan_free(self@, lo as int, hi as int, false) is None,
            },
    {
        let mut i = hi;
        while i > lo
            invariant
                lo <= i <= hi <= self@.len(),
                scan_free(self@, lo as int, hi as int, false) == scan_free(
                    self@,
                    lo as int,
                    i as int,
                    false,
                ),
            decreases i,
        {
            i -= 1;
            if self.entities[i].1.is_none() {
                return Some(i);
            }
        }
        None
    }

    /// Take the first empty slot the scan of `[lo, hi)` finds, bump its
    /// generation, occupy it with a fresh payload built from the new
    /// identifier, and return that identifier; `None` when the range is
    /// full.
    fn new_entity_internal(&mut self, lo: usize, hi: usize, ascending: bool) -> (r: Option<ID>)
        requires
            old(self).wf(),
            lo <= hi <= CAPACITY,
            scan_free(old(self)@, lo as int, hi as int, ascending) matches Some(j) ==> old(
                self,
            )@[j].0.generation < 0xffff,
        ensures
            final(self).wf(),
            match r {
                Some(id) => {
                    &&& scan_free(old(self)@, lo as int, hi as int, ascending) == Some(
                        id.index as int,
                    )
                    &&& old(self)@[id.index as int].1 is None
                    &&& id.generation == old(self)@[id.index as int].0.generation + 1
                    &&& final(self)@ == old(self)@.update(
                        id.index as int,
                        (id, Some(T::spec_new(id))),
                    )
                },
                None => {
                    &&& scan_free(old(self)@, lo as int, hi as int, ascending) is None
                    &&& final(self)@ == old(self)@
                },
            },
    {
        let found = if ascending {
            self.find_free_ascending(lo, hi)
        } else {
            self.find_free_descending(lo, hi)
        };
        match found {
            Some(i) => {
                let slot_id = self.entities[i].0;
                proof {
                    assert(slot_ok(self@[i as int], i as int));
                }
                let id = ID { index: slot_id.index, generation: slot_id.generation + 1 };
                let payload = T::new(id);
                self.entities[i] = (id, Some(payload));
                proof {
                    assert forall|j: int| 0 <= j < self@.len() implies slot_ok(
                        #[trigger] self@[j],
                        j,
                    ) by {
                        assert(slot_ok(old(self)@[j], j));
                    }
                }
                Some(id)
            },
            None => None,
        }
    }

    /// Append to `out` the delta log of `self` against the base snapshot
    /// `previous`: one record per replicated-half slot that differs,
    /// ascending by slot position; unchanged slots cost zero bytes.
    /// Returns the number of bytes written.
    pub fn delta_serialize(&self, previous: &Self, out: &mut Vec<u8>) -> (n: usize)
        requires
            self.wf(),
            previous.wf(),
        ensures
            final(out)@ == old(out)@ + spec_delta_bytes(self@, previous@),
            n == spec_delta_bytes(self@, previous@).len(),
    {
        let base_len = out.len();
        let mut i: usize = 0;
        let ghost mut done: Seq<u8> = Seq::empty();
        proof {
            assert(out@ =~= old(out)@ + done);
        }
        while i < HALF_CAPACITY
            invariant
                self.wf(),
                previous.wf(),
                i <= HALF_CAPACITY,
                base_len == old(out)@.len(),
                out@ == old(out)@ + done,
                done + records_from(self@, previous@, i as int) == spec_delta_bytes(
                    self@,
                    previous@,
                ),
            decreases HALF_CAPACITY - i,
        {
            let ghost out_before = out@;
            let cs = &self.entities[i];
            let ps = &previous.entities[i];
            let ids_equal = cs.0 == ps.0;
            let payload_equal = match (&cs.1, &ps.1) {
                (Some(a), Some(b)) => a.value_eq(b),
                (None, None) => true,
                _ => false,
            };
            if ids_equal && payload_equal {
                proof {
                    assert(self@[i as int] =~= previous@[i as int]);
                    assert(record_bytes(self@[i as int], previous@[i as int])
                        =~= Seq::<u8>::empty());
                    assert(records_from(self@, previous@, i as int) == records_from(
                        self@,
                        previous@,
                        i as int + 1,
                    ));
                }
            } else {
                let idb = cs.0.to_be_bytes();
                out.push(idb[0]);
                out.push(idb[1]);
                out.push(idb[2]);
                out.push(idb[3]);
                match &cs.1 {
                    None => {
                        out.push(0u8);
                        proof {
                            assert(self@[i as int] != previous@[i as int]);
                            assert(out@ =~= out_before + record_bytes(
                                self@[i as int],
                                previous@[i as int],
                            ));
                        }
                    },
                    Some(c_ref) => {
                        out.push(1u8);
                        let c = *c_ref;
                        let base = match &ps.1 {
                            Some(p) => *p,
                            None => T::new(cs.0),
                        };
                        proof {
                            assert(base == slot_base(previous@[i as int], self@[i as int].0));
                        }
                        c.delta_serialize(&base, out);
                        proof {
                            assert(self@[i as int] != previous@[i as int]);
                            assert(out@ =~= out_before + record_bytes(
                                self@[i as int],
                                previous@[i as int],
                            ));
                        }
                    },
                }
                proof {
                    done = done + record_bytes(self@[i as int], previous@[i as int]);
                    assert(out@ =~= old(out)@ + done);
                    assert(done + records_from(self@, previous@, i as int + 1) =~= spec_delta_bytes(
                        self@,
                        previous@,
                    ));
                }
            }
            i += 1;
        }
        proof {
            assert(records_from(self@, previous@, HALF_CAPACITY as int) == Seq::<u8>::empty());
            assert(done =~= spec_delta_bytes(self@, previous@));
        }
        out.len() - base_len
    }

    /// Decode a delta log against the base snapshot `previous`: start from
    /// a copy of `previous`, apply one record after another, and stop
    /// cleanly when the stream ends exactly at a record boundary.  A
    /// truncated record, an out-of-range slot index, an undecodable
    /// payload or a payload that does not carry the record's identifier is
    /// a malformed stream and yields an error, never a partial result.
    pub fn delta_deserialize(previous: &Self, stream: &[u8]) -> (r: Result<Self, DecodeError>)
        requires
            previous.wf(),
        ensures
            match spec_delta_decode(previous@, stream@) {
                Some(m) => r matches Ok(c) && c@ == m && c.wf(),
                None => r is Err,
            },
    {
        let mut current = previous.snapshot();
        let n = stream.len();
        let mut pos: usize = 0;
        proof {
            assert(stream@.skip(0) =~= stream@);
        }
        loop
            invariant
                previous.wf(),
                current.wf(),
                pos <= n,
                n == stream@.len(),
                decode_from(previous@, current@, stream@.skip(pos as int)) == spec_delta_decode(
                    previous@,
                    stream@,
                ),
            decreases n - pos,
        {
            let ghost rest = stream@.skip(pos as int);
            if pos == n {
                proof {
                    assert(rest =~= Seq::<u8>::empty());
                }
                return Ok(current);
            }
            if n - pos < 5 {
                return Err(DecodeError::MalformedStream);
            }
            let id = ID::from_be_bytes(
                [stream[pos], stream[pos + 1], stream[pos + 2], stream[pos + 3]],
            );
            proof {
                assert([stream@[pos as int], stream@[pos as int + 1], stream@[pos as int + 2],
                    stream@[pos as int + 3]]@ =~= rest.subrange(0, 4));
                assert(id == id_of_bytes(rest.subrange(0, 4)));
            }
            if (id.index as usize) >= CAPACITY {
                return Err(DecodeError::MalformedStream);
            }
            let flag = stream[pos + 4];
            proof {
                assert(flag == rest[4]);
            }
            if flag == 0 {
                current.entities[id.index as usize] = (id, None);
                proof {
                    assert forall|j: int| 0 <= j < current@.len() implies slot_ok(
                        #[trigger] current@[j],
                        j,
                    ) by {}
                    assert(rest.skip(5) =~= stream@.skip(pos as int + 5));
                }
                pos = pos + 5;
            } else {
                let base = match &previous.entities[id.index as usize].1 {
                    Some(p) => *p,
                    None => T::new(id),
                };
                proof {
                    assert(base == slot_base(previous@[id.index as int], id));
                    assert(rest.skip(5) =~= stream@.skip(pos as int + 5));
                }
                let mut p2: usize = pos + 5;
                let decoded = T::delta_deserialize(&base, stream, &mut p2);
                match decoded {
                    Err(_) => {
                        return Err(DecodeError::MalformedStream);
                    },
                    Ok(v) => {
                        proof {
                            T::lemma_decoded_len(&base, stream@.skip(pos as int + 5));
                        }
                        let vid = v.id();
                        if vid.index != id.index || vid.generation != id.generation {
                            return Err(DecodeError::MalformedStream);
                        }
                        current.entities[id.index as usize] = (id, Some(v));
                        proof {
                            assert forall|j: int| 0 <= j < current@.len() implies slot_ok(
                                #[trigger] current@[j],
                                j,
                            ) by {}
                            assert(stream@.skip(p2 as int) =~= rest.skip(
                                5 + (p2 - pos - 5) as int,
                            ));
                        }
                        pos = p2;
                    },
                }
            }
        }
    }

    /// Allocate in the replicated half, scanning upward from slot 0:
    /// occupy the lowest empty slot there with a fresh payload and return
    /// its identifier; `None` when the replicated half is full.  The
    /// premise that the taken slot's generation counter has room to grow
    /// follows for most callers from `lemma_scan_free_in_range`.
    pub fn new_entity_replicated(&mut self) -> (r: Option<ID>)
        requires
            old(self).wf(),
            first_free_replicated(old(self)@) matches Some(j) ==> old(self)@[j].0.generation
                < 0xffff,
        ensures
            final(self).wf(),
            match r {
                Some(id) => {
                    &&& first_free_replicated(old(self)@) == Some(id.index as int)
                    &&& old(self)@[id.index as int].1 is None
                    &&& id.generation == old(self)@[id.index as int].0.generation + 1
                    &&& final(self)@ == old(self)@.update(
                        id.index as int,
                        (id, Some(T::spec_new(id))),
                    )
                },
                None => {
                    &&& first_free_replicated(old(self)@) is None
                    &&& final(self)@ == old(self)@
                },
            },
    {
        self.new_entity_internal(0, HALF_CAPACITY, true)
    }

    /// Allocate in the local half, scanning downward from its top: occupy
    /// the highest empty slot there with a fresh payload and return its
    /// identifier; `None` when the local half is full.  Local entities are
    /// never delta-encoded.
    pub fn new_entity(&mut self) -> (r: Option<ID>)
        requires
            old(self).wf(),
            first_free_local(old(self)@) matches Some(j) ==> old(self)@[j].0.generation < 0xffff,
        ensures
            final(self).wf(),
            match r {
                Some(id) => {
                    &&& first_free_local(old(self)@) == Some(id.index as int)
                    &&& old(self)@[id.index as int].1 is None
                    &&& id.generation == old(self)@[id.index as int].0.generation + 1
                    &&& final(self)@ == old(self)@.update(
                        id.index as int,
                        (id, Some(T::spec_new(id))),
                    )
                },
                None => {
                    &&& first_free_local(old(self)@) is None
                    &&& final(self)@ == old(self)@
                },
            },
    {
        self.new_entity_internal(HALF_CAPACITY, 2 * HALF_CAPACITY, false)
    }
}

proof fn lemma_records_self<T: Entity>(s: Seq<(ID, Option<T>)>, i: int)
    ensures
        records_from(s, s, i) == Seq::<u8>::empty(),
    decreases HALF_CAPACITY - i,
{
    if 0 <= i < HALF_CAPACITY {
        lemma_records_self(s, i + 1);
        assert(record_bytes(s[i], s[i]) + records_from(s, s, i + 1) =~= Seq::<u8>::empty());
    }
}

/// Idempotent no-op: encoding a snapshot against itself writes zero
/// bytes, for any snapshot.
pub proof fn lemma_delta_bytes_noop<T: Entity>(s: Seq<(ID, Option<T>)>)
    ensures
        spec_delta_bytes(s, s) == Seq::<u8>::empty(),
{
    lemma_records_self(s, 0);
}

proof fn lemma_decode_records<T: Entity>(
    cur: Seq<(ID, Option<T>)>,
    prev: Seq<(ID, Option<T>)>,
    acc: Seq<(ID, Option<T>)>,
    i: int,
)
    requires
        wf_slots(cur),
        wf_slots(prev),
        0 <= i <= HALF_CAPACITY,
        acc == merge_replicated(cur, prev, i),
    ensures
        decode_from(prev, acc, records_from(cur, prev, i)) == Some(
            merge_replicated(cur, prev, HALF_CAPACITY as int),
        ),
    decreases HALF_CAPACITY - i,
{
    if i == HALF_CAPACITY {
        assert(records_from(cur, prev, i) == Seq::<u8>::empty());
        assert(acc =~= merge_replicated(cur, prev, HALF_CAPACITY as int));
    } else {
        let r = record_bytes(cur[i], prev[i]);
        let rest = records_from(cur, prev, i + 1);
        assert(records_from(cur, prev, i) == r + rest);
        if cur[i] == prev[i] {
            assert(r + rest =~= rest);
            assert(merge_replicated(cur, prev, i) =~= merge_replicated(cur, prev, i + 1));
            lemma_decode_records(cur, prev, acc, i + 1);
        } else {
            let id = cur[i].0;
            assert(slot_ok(cur[i], i));
            lemma_id_bytes_inverse(id);
            match cur[i].1 {
                None => {
                    let s = r + rest;
                    assert(s.subrange(0, 4) =~= id_bytes(id));
                    assert(s[4] == 0);
                    let acc2 = acc.update(i, (id, None::<T>));
                    assert(cur[i] == (id, None::<T>));
                    assert(acc2 =~= merge_replicated(cur, prev, i + 1));
                    assert(s.skip(5) =~= rest);
                    lemma_decode_records(cur, prev, acc2, i + 1);
                    assert(decode_from(prev, acc, s) == decode_from(prev, acc2, rest));
                },
                Some(c) => {
                    let base = slot_base(prev[i], id);
                    let delta = c.delta_bytes(&base);
                    let s = r + rest;
                    assert(s.subrange(0, 4) =~= id_bytes(id));
                    assert(s[4] == 1);
                    assert(s.skip(5) =~= delta + rest);
                    c.lemma_delta_round_trip(&base, rest);
                    assert(T::spec_decoded(&base, delta + rest) == Some(
                        (c, delta.len() as int),
                    ));
                    assert(c.spec_id() == id);
                    let acc2 = acc.update(i, (id, Some(c)));
                    assert(cur[i] == (id, Some(c)));
                    assert(acc2 =~= merge_replicated(cur, prev, i + 1));
                    assert(s.skip(5 + delta.len() as int) =~= rest);
                    lemma_decode_records(cur, prev, acc2, i + 1);
                    assert(decode_from(prev, acc, s) == decode_from(prev, acc2, rest));
                },
            }
        }
    }
}

/// Round trip: decoding the delta log of `cur` against `prev`, applied to
/// `prev` itself, rebuilds `cur` on the whole replicated half and leaves
/// the local half exactly as `prev` had it — for any two well-formed
/// snapshots.
pub proof fn lemma_delta_round_trip<T: Entity>(
    cur: Seq<(ID, Option<T>)>,
    prev: Seq<(ID, Option<T>)>,
)
    requires
        wf_slots(cur),
        wf_slots(prev),
    ensures
        spec_delta_decode(prev, spec_delta_bytes(cur, prev)) == Some(
            merge_replicated(cur, prev, HALF_CAPACITY as int),
        ),
{
    assert(prev =~= merge_replicated(cur, prev, 0));
    lemma_decode_records(cur, prev, prev, 0);
}

/// Generation safety: take a handle `id` whose slot was deleted (the slot
/// is empty and still carries generation `id.generation`, as
/// `delete_entity` leaves it).  However a later allocation reuses that
/// slot — yielding the fresh handle `id2`, with the slot's generation
/// bumped, as `new_entity_replicated` and `new_entity` ensure — the old
/// handle no longer resolves: the lookup of `id` is `None`, never the new
/// occupant.
pub proof fn lemma_generation_safety<T: Entity>(
    after_delete: Seq<(ID, Option<T>)>,
    after_reuse: Seq<(ID, Option<T>)>,
    id: ID,
    id2: ID,
)
    requires
        wf_slots(after_delete),
        (id.index as int) < after_delete.len(),
        after_delete[id.index as int].1 is None,
        after_delete[id.index as int].0.generation == id.generation,
        id2.index == id.index,
        id2.generation == after_delete[id2.index as int].0.generation + 1,
        after_reuse == after_delete.update(id2.index as int, (id2, Some(T::spec_new(id2)))),
    ensures
        slots_get(after_reuse, id) is None,
{
    assert(after_reuse[id.index as int].0 == id2);
    assert(id2.generation != id.generation);
}

/// Cursor over copies of the payloads the arena's occupied slots held
/// when `iter` was called, in slot-position order.  Each call to `iter`
/// starts a fresh traversal.
pub struct CollectionIntoIterator<T> where T: Entity {
    items: Vec<T>,
    pos: usize,
}

impl<T: Entity> CollectionIntoIterator<T> {
    /// The payloads not yet yielded, in order.
    pub closed spec fn remaining(&self) -> Seq<T> {
        if self.pos as int <= self.items@.len() {
            self.items@.skip(self.pos as int)
        } else {
            Seq::empty()
        }
    }

    /// Yield the next payload, or `None` once the traversal is done.
    pub fn next(&mut self) -> (r: Option<T>)
        ensures
            match r {
                Some(p) => old(self).remaining().len() > 0 && p == old(self).remaining()[0]
                    && final(self).remaining() == old(self).remaining().skip(1),
                None => old(self).remaining().len() == 0 && final(self).remaining() == old(
                    self,
                ).remaining(),
            },
    {
        if self.pos < self.items.len() {
            let p = self.items[self.pos];
            self.pos = self.pos + 1;
            proof {
                assert(self.items@.skip(self.pos as int) =~= old(self).remaining().skip(1));
            }
            Some(p)
        } else {
            None
        }
    }
}

/// Cursor over the identifiers of the entities that were live when
/// `iter_mut` was called, in slot-position order: each handle can be fed
/// to `get_entity_mut` to update the entity in place.
pub struct CollectionIntoIteratorMut {
    ids: Vec<ID>,
    pos: usize,
}

impl CollectionIntoIteratorMut {
    /// The identifiers not yet yielded, in order.
    pub closed spec fn remaining(&self) -> Seq<ID> {
        if self.pos as int <= self.ids@.len() {
            self.ids@.skip(self.pos as int)
        } else {
            Seq::empty()
        }
    }

    /// Yield the next identifier, or `None` once the traversal is done.
    pub fn next(&mut self) -> (r: Option<ID>)
        ensures
            match r {
                Some(id) => old(self).remaining().len() > 0 && id == old(self).remaining()[0]
                    && final(self).remaining() == old(self).remaining().skip(1),
                None => old(self).remaining().len() == 0 && final(self).remaining() == old(
                    self,
                ).remaining(),
            },
    {
        if self.pos < self.ids.len() {
            let id = self.ids[self.pos];
            self.pos = self.pos + 1;
            proof {
                assert(self.ids@.skip(self.pos as int) =~= old(self).remaining().skip(1));
            }
            Some(id)
        } else {
            None
        }
    }
}

impl<T: Entity> Default for Collection<T> {
    /// Arena with every slot empty, slot `i` holding identifier `(i, 0)`.
    fn default() -> (r: Self)
        ensures
            r.wf(),
            r@ == fresh_slots::<T>(),
    {
        let mut entities: Vec<(ID, Option<T>)> = Vec::new();
        let mut i: usize = 0;
        while i < CAPACITY
            invariant
                i <= CAPACITY,
                entities@.len() == i,
                forall|j: int| 0 <= j < i ==> #[trigger] entities@[j] == (
                    ID { index: j as u16, generation: 0 },
                    None::<T>,
                ),
            decreases CAPACITY - i,
        {
            entities.push((ID { index: i as u16, generation: 0 }, None));
            i += 1;
        }
        let r = Collection { entities };
        proof {
            assert(r@ =~= fresh_slots::<T>());
        }
        r
    }
}

} // verus!
