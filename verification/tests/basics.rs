use gamestate::Collection;
use gamestate::DecodeError;
use gamestate::DeltaSerializable;
use gamestate::Entity;
use gamestate::ID;
use vstd::prelude::int;
use vstd::prelude::Seq;

#[derive(Copy, Clone, PartialEq, Debug)]
pub struct Thing {
    pub id: ID,
    pub x: f32,
    pub y: f32,
    pub z: f32,
    pub health: f32,
}

impl Entity for Thing {
    // Ghost members of the payload contract; they exist only for the
    // verifier and are never called at run time.
    fn spec_id(&self) -> ID {
        unreachable!()
    }

    fn spec_new(_id: ID) -> Self {
        unreachable!()
    }

    fn new(id: ID) -> Self {
        Self { id, x: 0.0, y: 0.0, z: 0.0, health: 100.0 }
    }

    fn id(&self) -> ID {
        self.id
    }
}

impl DeltaSerializable for Thing {
    // Ghost members of the payload contract; they exist only for the
    // verifier and are never called at run time.
    fn delta_bytes(&self, _previous: &Self) -> Seq<u8> {
        unreachable!()
    }

    fn spec_decoded(_previous: &Self, _stream: Seq<u8>) -> Option<(Self, int)> {
        unreachable!()
    }

    fn spec_default() -> Self {
        unreachable!()
    }

    fn lemma_decoded_len(_previous: &Self, _stream: Seq<u8>) {}

    fn lemma_delta_round_trip(&self, _previous: &Self, _rest: Seq<u8>) {}

    fn default_value() -> Self {
        Thing::new(ID { index: 0, generation: 0 })
    }

    fn value_eq(&self, other: &Self) -> bool {
        *self == *other
    }

    fn delta_serialize(&self, previous: &Self, out: &mut Vec<u8>) -> usize {
        let mut body: Vec<u8> = Vec::new();
        if self.health != previous.health {
            body.push(0);
            body.extend_from_slice(&self.health.to_be_bytes());
        }
        if self.x != previous.x {
            body.push(1);
            body.extend_from_slice(&self.x.to_be_bytes());
        }
        if self.y != previous.y {
            body.push(2);
            body.extend_from_slice(&self.y.to_be_bytes());
        }
        if self.z != previous.z {
            body.push(3);
            body.extend_from_slice(&self.z.to_be_bytes());
        }
        if self.id != previous.id {
            body.push(4);
            body.extend_from_slice(&self.id.to_be_bytes());
        }
        out.push(body.len() as u8);
        out.extend_from_slice(&body);
        body.len() + 1
    }

    fn delta_deserialize(previous: &Self, stream: &[u8], pos: &mut usize) -> Result<
        Self,
        DecodeError,
    > {
        let mut current = *previous;
        if *pos >= stream.len() {
            return Err(DecodeError::MalformedStream);
        }
        let len = stream[*pos] as usize;
        *pos += 1;
        if *pos + len > stream.len() {
            return Err(DecodeError::MalformedStream);
        }
        let end = *pos + len;
        while *pos < end {
            let tag = stream[*pos];
            *pos += 1;
            if tag <= 3 {
                if *pos + 4 > end {
                    return Err(DecodeError::MalformedStream);
                }
                let v = f32::from_be_bytes([
                    stream[*pos],
                    stream[*pos + 1],
                    stream[*pos + 2],
                    stream[*pos + 3],
                ]);
                *pos += 4;
                match tag {
                    0 => current.health = v,
                    1 => current.x = v,
                    2 => current.y = v,
                    _ => current.z = v,
                }
            } else if tag == 4 {
                if *pos + 4 > end {
                    return Err(DecodeError::MalformedStream);
                }
                current.id = ID::from_be_bytes([
                    stream[*pos],
                    stream[*pos + 1],
                    stream[*pos + 2],
                    stream[*pos + 3],
                ]);
                *pos += 4;
            } else {
                return Err(DecodeError::MalformedStream);
            }
        }
        Ok(current)
    }
}

#[derive(Clone, Default, PartialEq, Debug)]
pub struct State {
    pub entities: Collection<Thing>,
}

#[test]
fn basics() {
    let empty = State::default();
    let mut current = State::default();
    assert!(empty == current);

    let id = current.entities.new_entity_replicated().unwrap();
    assert_eq!(id, ID { index: 0, generation: 1 });
    assert!(empty != current);

    let id2 = current.entities.new_entity_replicated().unwrap();
    {
        let t = current.entities.get_entity_mut(id2).unwrap();
        t.health = 1.0;
        t.x = 2.0;
        t.y = 3.0;
    }
    assert_eq!(id2, ID { index: 1, generation: 1 });
    assert!(empty != current);

    current.entities.delete_entity(ID { index: 0, generation: 1 });
    let id3 = current.entities.new_entity_replicated().unwrap();
    assert_eq!(id3, ID { index: 0, generation: 2 });
    current.entities.delete_entity(id3);

    assert_eq!(current.entities.len(), 1);
    let mut it = current.entities.iter();
    while let Some(t) = it.next() {
        assert_eq!(t.health, 1.0);
    }

    for _ in 0..10 {
        current.entities.new_entity_replicated();
    }
    assert_eq!(current.entities.len(), 11);

    current.entities.clear();
    assert_eq!(current.entities.len(), 0);
}

#[test]
fn scenario_allocation_cycle() {
    let mut arena: Collection<Thing> = Collection::default();
    assert_eq!(arena.len(), 0);

    let a = arena.new_entity_replicated().unwrap();
    assert_eq!(a, ID { index: 0, generation: 1 });
    let b = arena.new_entity_replicated().unwrap();
    assert_eq!(b, ID { index: 1, generation: 1 });

    arena.delete_entity(a);
    let c = arena.new_entity_replicated().unwrap();
    assert_eq!(c, ID { index: 0, generation: 2 });

    assert_eq!(arena.len(), 2);
    arena.clear();
    assert_eq!(arena.len(), 0);
}

#[test]
fn generation_safety_after_reuse() {
    let mut arena: Collection<Thing> = Collection::default();
    let stale = arena.new_entity_replicated().unwrap();
    assert!(arena.get_entity(stale).is_some());

    arena.delete_entity(stale);
    assert!(arena.get_entity(stale).is_none());

    let fresh = arena.new_entity_replicated().unwrap();
    assert_eq!(fresh.index, stale.index);
    assert_ne!(fresh.generation, stale.generation);

    // The reused slot is live again, but only under the new handle.
    assert!(arena.get_entity(stale).is_none());
    assert!(arena.get_entity(fresh).is_some());
}

#[test]
fn allocation_order() {
    let mut arena: Collection<Thing> = Collection::default();
    for n in 0..5u16 {
        let id = arena.new_entity_replicated().unwrap();
        assert_eq!(id, ID { index: n, generation: 1 });
    }
    // Local allocations walk down from the top of the local half:
    // 2 * 8191 - 1, then one less each call.
    let l1 = arena.new_entity().unwrap();
    assert_eq!(l1, ID { index: 16381, generation: 1 });
    let l2 = arena.new_entity().unwrap();
    assert_eq!(l2, ID { index: 16380, generation: 1 });
}

#[test]
fn stale_and_out_of_range_lookups() {
    let mut arena: Collection<Thing> = Collection::default();
    let id = arena.new_entity_replicated().unwrap();

    // Wrong generation never resolves.
    assert!(arena.get_entity(ID { index: 0, generation: 0 }).is_none());
    assert!(arena.get_entity(ID { index: 0, generation: 2 }).is_none());
    // Empty slot.
    assert!(arena.get_entity(ID { index: 1, generation: 1 }).is_none());
    // Index past the arena's end.
    assert!(arena.get_entity(ID { index: 60000, generation: 1 }).is_none());

    // Deleting with a stale handle is a no-op.
    arena.delete_entity(ID { index: 0, generation: 0 });
    assert!(arena.get_entity(id).is_some());
    // Deleting out of range is a no-op too.
    arena.delete_entity(ID { index: 60000, generation: 1 });
    assert_eq!(arena.len(), 1);

    // Pair lookup is both-or-nothing.
    let id2 = arena.new_entity_replicated().unwrap();
    assert!(arena.get_entity_pair(id, id2).is_some());
    assert!(arena.get_entity_pair(id, ID { index: 5, generation: 1 }).is_none());
}

#[test]
fn iter_mut_yields_live_handles() {
    let mut arena: Collection<Thing> = Collection::default();
    let a = arena.new_entity_replicated().unwrap();
    let b = arena.new_entity_replicated().unwrap();
    let c = arena.new_entity_replicated().unwrap();
    arena.delete_entity(b);

    let mut seen: Vec<ID> = Vec::new();
    let mut it = arena.iter_mut();
    while let Some(id) = it.next() {
        let t = arena.get_entity_mut(id).unwrap();
        t.health += 1.0;
        seen.push(id);
    }
    assert_eq!(seen, vec![a, c]);
    assert_eq!(arena.get_entity(a).unwrap().health, 101.0);
    assert_eq!(arena.get_entity(c).unwrap().health, 101.0);
}

#[test]
fn id_byte_encoding() {
    let id = ID { index: 0x1234, generation: 0x5678 };
    assert_eq!(id.to_be_bytes(), [0x12, 0x34, 0x56, 0x78]);
    assert_eq!(ID::from_be_bytes([0x12, 0x34, 0x56, 0x78]), id);
    let zero = ID { index: 0, generation: 0 };
    assert_eq!(zero.to_be_bytes(), [0, 0, 0, 0]);
}
