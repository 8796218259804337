use gamestate::DecodeError;
use gamestate::DeltaSerializable;
use gamestate::Entities;
use gamestate::EntityID;
use vstd::prelude::int;
use vstd::prelude::Seq;

#[derive(Copy, Clone, PartialEq, Debug)]
pub struct Stats {
    pub hp: u32,
    pub score: u32,
}

impl DeltaSerializable for Stats {
    // Ghost members of the payload contract; they exist only for the
    // verifier and are never called at run time.
    fn delta_bytes(&self, _previous: &Self) -> Seq<u8> {
        unreachable!()
    }

    fn spec_decoded(_previous: &Self, _stream: Seq<u8>) -> Option<(Self, int)> {
        unreachable!()
    }

    fn spec_default() -> Self {
        unreachable!()
    }

    fn lemma_decoded_len(_previous: &Self, _stream: Seq<u8>) {}

    fn lemma_delta_round_trip(&self, _previous: &Self, _rest: Seq<u8>) {}

    fn default_value() -> Self {
        Stats { hp: 100, score: 0 }
    }

    fn value_eq(&self, other: &Self) -> bool {
        *self == *other
    }

    fn delta_serialize(&self, previous: &Self, out: &mut Vec<u8>) -> usize {
        let mut body: Vec<u8> = Vec::new();
        if self.hp != previous.hp {
            body.push(0);
            body.extend_from_slice(&self.hp.to_be_bytes());
        }
        if self.score != previous.score {
            body.push(1);
            body.extend_from_slice(&self.score.to_be_bytes());
        }
        out.push(body.len() as u8);
        out.extend_from_slice(&body);
        body.len() + 1
    }

    fn delta_deserialize(previous: &Self, stream: &[u8], pos: &mut usize) -> Result<
        Self,
        DecodeError,
    > {
        let mut current = *previous;
        if *pos >= stream.len() {
            return Err(DecodeError::MalformedStream);
        }
        let len = stream[*pos] as usize;
        *pos += 1;
        if *pos + len > stream.len() {
            return Err(DecodeError::MalformedStream);
        }
        let end = *pos + len;
        while *pos < end {
            let tag = stream[*pos];
            *pos += 1;
            if tag > 1 {
                return Err(DecodeError::MalformedStream);
            }
            if *pos + 4 > end {
                return Err(DecodeError::MalformedStream);
            }
            let v = u32::from_be_bytes([
                stream[*pos],
                stream[*pos + 1],
                stream[*pos + 2],
                stream[*pos + 3],
            ]);
            *pos += 4;
            if tag == 0 {
                current.hp = v;
            } else {
                current.score = v;
            }
        }
        Ok(current)
    }
}

#[test]
fn entities_basics() {
    let mut arena: Entities<Stats> = Entities::new();
    assert_eq!(arena.len(), 0);

    let a = arena.new_entity_replicated().unwrap();
    assert_eq!(a, EntityID { index: 0, generation: 1 });
    let b = arena.new_entity_replicated().unwrap();
    assert_eq!(b, EntityID { index: 1, generation: 1 });
    let l = arena.new_entity().unwrap();
    assert_eq!(l, EntityID { index: 16381, generation: 1 });
    assert_eq!(arena.len(), 3);

    {
        let s = arena.get_entity_mut(a).unwrap();
        assert_eq!(s.hp, 100);
        s.hp = 55;
    }
    assert_eq!(arena.get_entity_mut(a).unwrap().hp, 55);

    arena.delete_entity(a);
    assert!(arena.get_entity_mut(a).is_none());
    let c = arena.new_entity_replicated().unwrap();
    assert_eq!(c, EntityID { index: 0, generation: 2 });
    // The stale handle still addresses nothing.
    assert!(arena.get_entity_mut(a).is_none());

    let mut seen: Vec<EntityID> = Vec::new();
    let mut it = arena.iter_mut();
    while let Some(id) = it.next() {
        seen.push(id);
    }
    assert_eq!(seen, vec![c, b, l]);

    arena.clear();
    assert_eq!(arena.len(), 0);
    // Generations survive a clear: the next occupant of slot 0 is gen 3.
    let d = arena.new_entity_replicated().unwrap();
    assert_eq!(d, EntityID { index: 0, generation: 3 });
}

#[test]
fn entities_round_trip() {
    let mut current: Entities<Stats> = Entities::new();
    let kept = current.new_entity_replicated().unwrap();
    let doomed = current.new_entity_replicated().unwrap();
    let local = current.new_entity().unwrap();
    let previous = current.snapshot();

    current.get_entity_mut(kept).unwrap().score = 9;
    current.delete_entity(doomed);
    current.get_entity_mut(local).unwrap().hp = 1;

    let mut buf = Vec::new();
    let n = current.delta_serialize(&previous, &mut buf);
    assert_ne!(n, 0);
    assert_eq!(n, buf.len());

    let decoded = Entities::delta_deserialize(&previous, &buf).unwrap();
    assert_eq!(decoded.snapshot().get_entity_mut(kept).unwrap().score, 9);
    assert!(decoded.snapshot().get_entity_mut(doomed).is_none());
    // Local entities are never delta-encoded: the decoded arena keeps the
    // base snapshot's local payload, not the sender's later mutation.
    assert_eq!(decoded.snapshot().get_entity_mut(local).unwrap().hp, 100);

    // A snapshot encoded against itself writes nothing.
    let mut empty_buf = Vec::new();
    let n = current.delta_serialize(&current.snapshot(), &mut empty_buf);
    assert_eq!(n, 0);
    assert!(empty_buf.is_empty());
}

#[test]
fn entity_id_byte_encoding() {
    let id = EntityID { index: 0xabcd, generation: 0x0102 };
    assert_eq!(id.to_be_bytes(), [0xab, 0xcd, 0x01, 0x02]);
    assert_eq!(EntityID::from_be_bytes([0xab, 0xcd, 0x01, 0x02]), id);
}

#[test]
fn entities_malformed_stream() {
    let base: Entities<Stats> = Entities::new();
    // Truncated mid-record: identifier but no flag.
    assert!(Entities::delta_deserialize(&base, &[0, 0, 0, 1]).is_err());
    // Unknown payload field tag.
    let r = Entities::delta_deserialize(&base, &[0, 0, 0, 1, 1, 1, 7]);
    assert_eq!(r.err(), Some(DecodeError::MalformedStream));
    // Empty stream is a clean no-change decode.
    let same = Entities::delta_deserialize(&base, &[]).unwrap();
    assert_eq!(same, base);
}
