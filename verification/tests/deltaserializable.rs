use gamestate::Collection;
use gamestate::DecodeError;
use gamestate::DeltaSerializable;
use gamestate::Entity;
use gamestate::ID;
use vstd::prelude::int;
use vstd::prelude::Seq;

#[derive(Copy, Clone, PartialEq, Debug)]
pub struct Thing {
    pub id: ID,
    pub x: f32,
    pub y: f32,
    pub z: f32,
    pub health: f32,
}

impl Entity for Thing {
    // Ghost members of the payload contract; they exist only for the
    // verifier and are never called at run time.
    fn spec_id(&self) -> ID {
        unreachable!()
    }

    fn spec_new(_id: ID) -> Self {
        unreachable!()
    }

    fn new(id: ID) -> Self {
        Self { id, x: 0.0, y: 0.0, z: 0.0, health: 100.0 }
    }

    fn id(&self) -> ID {
        self.id
    }
}

impl DeltaSerializable for Thing {
    // Ghost members of the payload contract; they exist only for the
    // verifier and are never called at run time.
    fn delta_bytes(&self, _previous: &Self) -> Seq<u8> {
        unreachable!()
    }

    fn spec_decoded(_previous: &Self, _stream: Seq<u8>) -> Option<(Self, int)> {
        unreachable!()
    }

    fn spec_default() -> Self {
        unreachable!()
    }

    fn lemma_decoded_len(_previous: &Self, _stream: Seq<u8>) {}

    fn lemma_delta_round_trip(&self, _previous: &Self, _rest: Seq<u8>) {}

    fn default_value() -> Self {
        Thing::new(ID { index: 0, generation: 0 })
    }

    fn value_eq(&self, other: &Self) -> bool {
        *self == *other
    }

    fn delta_serialize(&self, previous: &Self, out: &mut Vec<u8>) -> usize {
        let mut body: Vec<u8> = Vec::new();
        if self.health != previous.health {
            body.push(0);
            body.extend_from_slice(&self.health.to_be_bytes());
        }
        if self.x != previous.x {
            body.push(1);
            body.extend_from_slice(&self.x.to_be_bytes());
        }
        if self.y != previous.y {
            body.push(2);
            body.extend_from_slice(&self.y.to_be_bytes());
        }
        if self.z != previous.z {
            body.push(3);
            body.extend_from_slice(&self.z.to_be_bytes());
        }
        if self.id != previous.id {
            body.push(4);
            body.extend_from_slice(&self.id.to_be_bytes());
        }
        out.push(body.len() as u8);
        out.extend_from_slice(&body);
        body.len() + 1
    }

    fn delta_deserialize(previous: &Self, stream: &[u8], pos: &mut usize) -> Result<
        Self,
        DecodeError,
    > {
        let mut current = *previous;
        if *pos >= stream.len() {
            return Err(DecodeError::MalformedStream);
        }
        let len = stream[*pos] as usize;
        *pos += 1;
        if *pos + len > stream.len() {
            return Err(DecodeError::MalformedStream);
        }
        let end = *pos + len;
        while *pos < end {
            let tag = stream[*pos];
            *pos += 1;
            if tag <= 3 {
                if *pos + 4 > end {
                    return Err(DecodeError::MalformedStream);
                }
                let v = f32::from_be_bytes([
                    stream[*pos],
                    stream[*pos + 1],
                    stream[*pos + 2],
                    stream[*pos + 3],
                ]);
                *pos += 4;
                match tag {
                    0 => current.health = v,
                    1 => current.x = v,
                    2 => current.y = v,
                    _ => current.z = v,
                }
            } else if tag == 4 {
                if *pos + 4 > end {
                    return Err(DecodeError::MalformedStream);
                }
                current.id = ID::from_be_bytes([
                    stream[*pos],
                    stream[*pos + 1],
                    stream[*pos + 2],
                    stream[*pos + 3],
                ]);
                *pos += 4;
            } else {
                return Err(DecodeError::MalformedStream);
            }
        }
        Ok(current)
    }
}

#[derive(Clone, Default, PartialEq, Debug)]
pub struct State {
    pub entities: Collection<Thing>,
}

impl State {
    pub fn delta_serialize(&self, previous: &State, out: &mut Vec<u8>) -> usize {
        self.entities.delta_serialize(&previous.entities, out)
    }

    pub fn delta_deserialize(previous: &State, stream: &[u8]) -> Result<State, DecodeError> {
        Ok(State { entities: Collection::delta_deserialize(&previous.entities, stream)? })
    }
}

#[test]
fn deltaserializable() {
    let empty = State::default();
    let mut current = State::default();
    assert_eq!(current, empty);

    let mut buf = Vec::new();
    let n = current.delta_serialize(&empty, &mut buf);
    assert_eq!(n, 0);

    let id = current.entities.new_entity_replicated().unwrap();
    {
        let thing = current.entities.get_entity_mut(id).unwrap();
        thing.health = 100.0;
        thing.x = 10.0;
        thing.y = 20.0;
        thing.z = 30.0;
    }

    let mut buf = Vec::new();
    let n = current.delta_serialize(&empty, &mut buf);
    assert_ne!(n, 0);
    assert_eq!(current.entities.len(), 1);

    let deserialized = State::delta_deserialize(&empty, &buf).unwrap();
    println!("{:?}", deserialized.entities.get_entity(ID { index: 0, generation: 1 }));

    assert_eq!(deserialized.entities.len(), 1);

    assert!(current == deserialized);
}

#[test]
fn encode_self_is_empty() {
    let mut state = State::default();
    for _ in 0..4 {
        state.entities.new_entity_replicated().unwrap();
    }
    state.entities.new_entity().unwrap();

    let mut buf = Vec::new();
    let n = state.delta_serialize(&state.clone(), &mut buf);
    assert_eq!(n, 0);
    assert!(buf.is_empty());
}

#[test]
fn mutation_record_layout() {
    let mut current = State::default();
    let id = current.entities.new_entity_replicated().unwrap();
    let previous = current.clone();

    current.entities.get_entity_mut(id).unwrap().x = 7.5;

    let mut buf = Vec::new();
    let n = current.delta_serialize(&previous, &mut buf);
    assert_ne!(n, 0);
    // One record: the entity's identifier bytes, then the occupied flag.
    assert_eq!(&buf[0..4], &id.to_be_bytes());
    assert_eq!(buf[4], 1);
}

#[test]
fn round_trip_with_delete_and_mutation() {
    let mut current = State::default();
    let kept = current.entities.new_entity_replicated().unwrap();
    let doomed = current.entities.new_entity_replicated().unwrap();
    let local = current.entities.new_entity().unwrap();
    let previous = current.clone();

    current.entities.get_entity_mut(kept).unwrap().health = 42.0;
    current.entities.delete_entity(doomed);
    let added = current.entities.new_entity_replicated().unwrap();
    assert_eq!(added, ID { index: doomed.index, generation: 2 });

    let mut buf = Vec::new();
    current.delta_serialize(&previous, &mut buf);
    let decoded = State::delta_deserialize(&previous, &buf).unwrap();

    assert_eq!(decoded, current);
    assert_eq!(decoded.entities.get_entity(kept).unwrap().health, 42.0);
    assert!(decoded.entities.get_entity(doomed).is_none());
    assert!(decoded.entities.get_entity(added).is_some());
    assert!(decoded.entities.get_entity(local).is_some());
}

#[test]
fn malformed_streams() {
    let base = State::default();

    // A short read mid-record: a lone identifier with no flag byte.
    let r = State::delta_deserialize(&base, &[0, 0, 0, 1]);
    assert_eq!(r.err(), Some(DecodeError::MalformedStream));

    // A record addressing a slot past the arena's end (index 0xffff).
    let r = State::delta_deserialize(&base, &[0xff, 0xff, 0, 1, 0]);
    assert_eq!(r.err(), Some(DecodeError::MalformedStream));

    // An occupied record whose payload carries an unknown field tag.
    let r = State::delta_deserialize(&base, &[0, 0, 0, 1, 1, 1, 9]);
    assert_eq!(r.err(), Some(DecodeError::MalformedStream));

    // A stream ending exactly at a record boundary decodes cleanly.
    let r = State::delta_deserialize(&base, &[]);
    assert!(r.is_ok());
}
