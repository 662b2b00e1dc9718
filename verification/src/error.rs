//! The errors of the codec.

use vstd::prelude::*;

verus! {

/// The kind of nested value whose own codec failed.
#[derive(Clone, Copy, Debug, PartialEq, Eq, Hash)]
pub enum Field {
    /// The public key of a handshake initiation.
    PublicKey,
    /// The random bytes of a handshake initiation.
    RandomBytes,
    /// The version of a handshake initiation.
    Version,
    /// The signature of a handshake reply.
    Signature,
    /// A full block.
    Block,
    /// A block header.
    BlockHeader,
    /// A block identifier.
    BlockId,
    /// The address of a peer.
    PeerAddress,
    /// An operation identifier.
    OperationId,
    /// The presence tag in front of an optional operation.
    PresenceTag,
    /// An operation.
    Operation,
    /// An endorsement.
    Endorsement,
}

/// Why a message could not be encoded or decoded.
#[derive(Clone, Copy, Debug, PartialEq, Eq, Hash)]
pub enum ProtocolError {
    /// The discriminant names no message variant.
    UnknownMessageType,
    /// A declared count is above the configured maximum for its field.
    BoundExceeded,
    /// The buffer ends before the value that is being read.
    Truncated,
    /// The codec of a nested value failed.
    NestedCodecError(Field),
    /// A collection is too long for its count to be written.
    LengthOverflow,
}

/// How the failure of a nested codec shows in the enclosing value: a short
/// buffer stays a short buffer, every other failure names the field.
pub open spec fn nested_failure(e: ProtocolError, field: Field) -> ProtocolError {
    match e {
        ProtocolError::Truncated => ProtocolError::Truncated,
        _ => ProtocolError::NestedCodecError(field),
    }
}

/// Computes [`nested_failure`].
pub fn wrap_nested_failure(e: ProtocolError, field: Field) -> (r: ProtocolError)
    ensures
        r == nested_failure(e, field),
{
    match e {
        ProtocolError::Truncated => ProtocolError::Truncated,
        _ => ProtocolError::NestedCodecError(field),
    }
}

} // verus!
