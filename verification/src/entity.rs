//! Identifiers (handles) for arena entities, their big-endian byte
//! encoding, and the contract a stored entity type must satisfy.

use crate::deltaserializable::DeltaSerializable;
use vstd::prelude::*;

verus! {

/// Handle addressing one occupancy of one arena slot: the slot position
/// (`index`) paired with the generation counter the slot had when its
/// occupant was created.  A handle whose generation no longer matches the
/// slot's current generation is stale and never resolves.
#[derive(Copy, Clone, PartialEq, Eq, Structural, Default, Debug)]
pub struct ID {
    pub index: u16,
    pub generation: u16,
}

/// High byte of a 16-bit value.
pub open spec fn u16_hi(x: u16) -> u8 {
    (x >> 8) as u8
}

/// Low byte of a 16-bit value.
pub open spec fn u16_lo(x: u16) -> u8 {
    (x & 0xff) as u8
}

/// The 16-bit value with high byte `hi` and low byte `lo`.
pub open spec fn u16_of_bytes(hi: u8, lo: u8) -> u16 {
    ((hi as u16) << 8) | (lo as u16)
}

/// Big-endian encoding of an identifier: index first, then generation.
pub open spec fn id_bytes(id: ID) -> Seq<u8> {
    seq![u16_hi(id.index), u16_lo(id.index), u16_hi(id.generation), u16_lo(id.generation)]
}

/// The identifier whose big-endian encoding is the four bytes `b`.
pub open spec fn id_of_bytes(b: Seq<u8>) -> ID
    recommends
        b.len() == 4,
{
    ID { index: u16_of_bytes(b[0], b[1]), generation: u16_of_bytes(b[2], b[3]) }
}

pub proof fn lemma_u16_bytes_inverse(x: u16)
    ensures
        u16_of_bytes(u16_hi(x), u16_lo(x)) == x,
{
    assert(((((x >> 8) as u8) as u16) << 8) | (((x & 0xff) as u8) as u16) == x) by (bit_vector);
}

/// Parsing inverts encoding: the four bytes of `id` parse back to `id`.
pub proof fn lemma_id_bytes_inverse(id: ID)
    ensures
        id_of_bytes(id_bytes(id)) == id,
{
    lemma_u16_bytes_inverse(id.index);
    lemma_u16_bytes_inverse(id.generation);
}

impl ID {
    /// Big-endian encoding `[index hi, index lo, generation hi, generation lo]`.
    pub fn to_be_bytes(&self) -> (r: [u8; 4])
        ensures
            r@ == id_bytes(*self),
    {
        proof {
            let ix = self.index;
            let gn = self.generation;
            assert(ix >> 8 < 256 && ix & 0xff < 256) by (bit_vector);
            assert(gn >> 8 < 256 && gn & 0xff < 256) by (bit_vector);
        }
        let r = [
            (self.index >> 8) as u8,
            (self.index & 0xff) as u8,
            (self.generation >> 8) as u8,
            (self.generation & 0xff) as u8,
        ];
        proof {
            assert(r@ =~= id_bytes(*self));
        }
        r
    }

    /// The identifier encoded big-endian in the four bytes given.
    pub fn from_be_bytes(bytes: [u8; 4]) -> (r: Self)
        ensures
            r == id_of_bytes(bytes@),
    {
        ID {
            index: ((bytes[0] as u16) << 8) | (bytes[1] as u16),
            generation: ((bytes[2] as u16) << 8) | (bytes[3] as u16),
        }
    }
}

/// Contract of a payload that carries its own identifier: it can be
/// constructed fresh from a handle and reports the handle it carries.
pub trait Entity: DeltaSerializable + Copy {
    /// The identifier this value carries.
    spec fn spec_id(&self) -> ID;

    /// The fresh value `new` constructs for a given identifier.
    spec fn spec_new(id: ID) -> Self;

    /// Fresh payload for a newly occupied slot; it carries exactly the
    /// identifier it was built from.
    fn new(id: ID) -> (r: Self)
        ensures
            r == Self::spec_new(id),
            r.spec_id() == id,
    ;

    /// The identifier this value carries.
    fn id(&self) -> (r: ID)
        ensures
            r == self.spec_id(),
    ;
}

} // verus!
