//! What a nested protocol object owes the codec.
//!
//! A message carries blocks, operations, endorsements and other objects whose
//! byte layout is their own. The codec reads and writes them through the
//! traits of this module, and proves its laws from the laws that every
//! implementor proves of its own encoding.

use crate::context::SerializationContext;
use crate::error::ProtocolError;
use vstd::prelude::*;

verus! {

/// The compact encoding of a type, as a pair of functions on its view, with
/// the laws that make the pair a codec.
pub trait WireFormat: View + Sized {
    /// Whether `v` is the view of a value of the type.
    spec fn well_formed(v: Self::V) -> bool;

    /// Whether every size in `v` is within the limits of `context`.
    spec fn within_limits(v: Self::V, context: SerializationContext) -> bool;

    /// The encoding of `v`, or why it has none.
    spec fn spec_encode(v: Self::V) -> Result<Seq<u8>, ProtocolError>;

    /// The value at the front of `buf` and the number of bytes that it takes,
    /// or why there is none.
    spec fn spec_decode(buf: Seq<u8>, context: SerializationContext) -> Result<
        (Self::V, nat),
        ProtocolError,
    >;

    /// What was decoded is a value of the type and took no more bytes than
    /// the buffer holds.
    proof fn lemma_decode_consumed(buf: Seq<u8>, context: SerializationContext)
        ensures
            Self::spec_decode(buf, context) matches Ok((v, n)) ==> n <= buf.len()
                && Self::well_formed(v),
    ;

    /// Decoding the encoding of a value gives the value back, and the length
    /// of its encoding, whatever follows it in the buffer.
    proof fn lemma_round_trip(v: Self::V, rest: Seq<u8>, context: SerializationContext)
        requires
            Self::well_formed(v),
            Self::within_limits(v, context),
            Self::spec_encode(v) is Ok,
        ensures
            Self::spec_decode(Self::spec_encode(v)->Ok_0 + rest, context) == Ok::<
                (Self::V, nat),
                ProtocolError,
            >((v, Self::spec_encode(v)->Ok_0.len())),
    ;

    /// Decoding a strict prefix of the encoding of a value fails because the
    /// buffer is short.
    proof fn lemma_truncated(v: Self::V, n: int, context: SerializationContext)
        requires
            Self::well_formed(v),
            Self::within_limits(v, context),
            Self::spec_encode(v) is Ok,
            0 <= n < Self::spec_encode(v)->Ok_0.len(),
        ensures
            Self::spec_decode(Self::spec_encode(v)->Ok_0.take(n), context) == Err::<
                (Self::V, nat),
                ProtocolError,
            >(ProtocolError::Truncated),
    ;
}

/// A value that can be written in its compact encoding.
pub trait SerializeCompact: WireFormat {
    /// Writes the value. On success the bytes are its encoding.
    fn to_bytes_compact(&self) -> (r: Result<Vec<u8>, ProtocolError>)
        ensures
            match r {
                Ok(bytes) => Self::spec_encode(self@) == Ok::<Seq<u8>, ProtocolError>(bytes@)
                    && Self::well_formed(self@),
                Err(e) => Self::spec_encode(self@) == Err::<Seq<u8>, ProtocolError>(e),
            },
    ;
}

/// A value that can be read from its compact encoding.
pub trait DeserializeCompact: WireFormat {
    /// Reads one value from the front of `buffer`: the value and the number
    /// of bytes that it took.
    fn from_bytes_compact(buffer: &[u8], context: &SerializationContext) -> (r: Result<
        (Self, usize),
        ProtocolError,
    >)
        ensures
            match r {
                Ok((value, n)) => Self::spec_decode(buffer@, *context) == Ok::<
                    (Self::V, nat),
                    ProtocolError,
                >((value@, n as nat)) && n <= buffer@.len() && Self::well_formed(value@),
                Err(e) => Self::spec_decode(buffer@, *context) == Err::<
                    (Self::V, nat),
                    ProtocolError,
                >(e),
            },
    ;
}

} // verus!
