//! The contract a stored payload type offers the delta codec: a baseline
//! value, value equality, and a field-level diff encode/decode pair that
//! round-trips exactly.

use vstd::prelude::*;

verus! {

/// Failure of a delta decode: the byte stream was truncated inside a
/// record, or carried data that does not describe the base snapshot.
#[derive(Copy, Clone, PartialEq, Eq, Structural, Debug)]
pub enum DecodeError {
    MalformedStream,
}

/// Field-level delta coding, offered by every payload type the arena can
/// hold.  The two spec functions name what the executable pair writes and
/// reads; the proof obligations pin the pair down so that any container
/// built over it round-trips.
pub trait DeltaSerializable: Sized {
    /// The bytes `delta_serialize` appends when `self` is encoded against
    /// the base value `previous`.
    spec fn delta_bytes(&self, previous: &Self) -> Seq<u8>;

    /// What `delta_deserialize` reads from the front of `stream` against
    /// the base value `previous`: the decoded value and the number of
    /// bytes consumed, or `None` if the stream is malformed.
    spec fn spec_decoded(previous: &Self, stream: Seq<u8>) -> Option<(Self, int)>;

    /// The baseline value a freshly occupied slot starts from when no
    /// previous payload exists.
    spec fn spec_default() -> Self;

    /// Baseline constructor; returns exactly `spec_default`.
    fn default_value() -> (r: Self)
        ensures
            r == Self::spec_default(),
    ;

    /// Value equality, used by the codec to skip unchanged slots.
    fn value_eq(&self, other: &Self) -> (r: bool)
        ensures
            r == (*self == *other),
    ;

    /// Append to `out` exactly the field-level delta of `self` against
    /// `previous`; returns the number of bytes written.
    fn delta_serialize(&self, previous: &Self, out: &mut Vec<u8>) -> (n: usize)
        ensures
            final(out)@ == old(out)@ + self.delta_bytes(previous),
            n == self.delta_bytes(previous).len(),
    ;

    /// Read one field-level delta from `stream` starting at `*pos`,
    /// applied to the base value `previous`; on success `*pos` advances
    /// past exactly the bytes consumed.
    fn delta_deserialize(previous: &Self, stream: &[u8], pos: &mut usize) -> (r: Result<
        Self,
        DecodeError,
    >)
        requires
            *old(pos) <= stream@.len(),
        ensures
            match Self::spec_decoded(previous, stream@.skip(*old(pos) as int)) {
                Some(v_n) => r == Ok::<Self, DecodeError>(v_n.0) && *final(pos) == *old(pos)
                    + v_n.1,
                None => r is Err,
            },
    ;

    /// A decode never claims to consume more bytes than the stream holds.
    proof fn lemma_decoded_len(previous: &Self, stream: Seq<u8>)
        ensures
            Self::spec_decoded(previous, stream) matches Some(v_n) ==> 0 <= v_n.1 <= stream.len(),
    ;

    /// Round trip: decoding a value's own delta against the same base
    /// yields the value back and consumes exactly the delta, whatever
    /// bytes follow it.
    proof fn lemma_delta_round_trip(&self, previous: &Self, rest: Seq<u8>)
        ensures
            Self::spec_decoded(previous, self.delta_bytes(previous) + rest) == Some(
                (*self, self.delta_bytes(previous).len() as int),
            ),
    ;
}

} // verus!
