//! The message variants and the numbers that stand for them on the wire.
//!
//! The table is written out in both directions. A number once given to a
//! variant is never given to another.

use crate::error::ProtocolError;
use vstd::prelude::*;

verus! {

/// Number of message variants.
pub const MESSAGE_TYPE_COUNT: u32 = 12;

/// The variant of a message, without its payload.
#[derive(Clone, Copy, Debug, PartialEq, Eq, Hash)]
pub enum MessageTypeId {
    /// Initiates a handshake.
    HandshakeInitiation,
    /// Replies to a handshake initiation.
    HandshakeReply,
    /// A full block.
    Block,
    /// A block header.
    BlockHeader,
    /// Asks for blocks.
    AskForBlocks,
    /// Asks for the peers that the other side advertises.
    AskPeerList,
    /// The peers that a node advertises.
    PeerList,
    /// A block that was asked for is not known.
    BlockNotFound,
    /// Operations that were asked for.
    Operations,
    /// Endorsements.
    Endorsements,
    /// Asks for operations.
    AskForOperation,
    /// Announces operations.
    OperationsBatch,
}

/// The number that stands for a variant.
pub open spec fn discriminant(id: MessageTypeId) -> u32 {
    match id {
        MessageTypeId::HandshakeInitiation => 0,
        MessageTypeId::HandshakeReply => 1,
        MessageTypeId::Block => 2,
        MessageTypeId::BlockHeader => 3,
        MessageTypeId::AskForBlocks => 4,
        MessageTypeId::AskPeerList => 5,
        MessageTypeId::PeerList => 6,
        MessageTypeId::BlockNotFound => 7,
        MessageTypeId::Operations => 8,
        MessageTypeId::Endorsements => 9,
        MessageTypeId::AskForOperation => 10,
        MessageTypeId::OperationsBatch => 11,
    }
}

/// The variant that a number stands for, if it stands for one.
pub open spec fn variant_of(value: nat) -> Option<MessageTypeId> {
    if value == 0 {
        Some(MessageTypeId::HandshakeInitiation)
    } else if value == 1 {
        Some(MessageTypeId::HandshakeReply)
    } else if value == 2 {
        Some(MessageTypeId::Block)
    } else if value == 3 {
        Some(MessageTypeId::BlockHeader)
    } else if value == 4 {
        Some(MessageTypeId::AskForBlocks)
    } else if value == 5 {
        Some(MessageTypeId::AskPeerList)
    } else if value == 6 {
        Some(MessageTypeId::PeerList)
    } else if value == 7 {
        Some(MessageTypeId::BlockNotFound)
    } else if value == 8 {
        Some(MessageTypeId::Operations)
    } else if value == 9 {
        Some(MessageTypeId::Endorsements)
    } else if value == 10 {
        Some(MessageTypeId::AskForOperation)
    } else if value == 11 {
        Some(MessageTypeId::OperationsBatch)
    } else {
        None
    }
}

/// The two directions of the table undo each other: every variant has a
/// number below the count that leads back to it, every number below the
/// count has a variant that leads back to it, and no other number has one.
pub proof fn lemma_registry_bijective(id: MessageTypeId, value: nat)
    ensures
        discriminant(id) < MESSAGE_TYPE_COUNT,
        variant_of(discriminant(id) as nat) == Some(id),
        value < MESSAGE_TYPE_COUNT ==> variant_of(value) is Some && discriminant(
            variant_of(value)->Some_0,
        ) == value,
        value >= MESSAGE_TYPE_COUNT ==> variant_of(value) is None,
{
}

impl MessageTypeId {
    /// The number that stands for the variant.
    pub fn to_u32(self) -> (r: u32)
        ensures
            r == discriminant(self),
    {
        match self {
            MessageTypeId::HandshakeInitiation => 0,
            MessageTypeId::HandshakeReply => 1,
            MessageTypeId::Block => 2,
            MessageTypeId::BlockHeader => 3,
            MessageTypeId::AskForBlocks => 4,
            MessageTypeId::AskPeerList => 5,
            MessageTypeId::PeerList => 6,
            MessageTypeId::BlockNotFound => 7,
            MessageTypeId::Operations => 8,
            MessageTypeId::Endorsements => 9,
            MessageTypeId::AskForOperation => 10,
            MessageTypeId::OperationsBatch => 11,
        }
    }

    /// The variant that `value` stands for. A number that stands for none is
    /// refused.
    pub fn try_from_u32(value: u32) -> (r: Result<MessageTypeId, ProtocolError>)
        ensures
            match r {
                Ok(id) => variant_of(value as nat) == Some(id),
                Err(e) => variant_of(value as nat) is None && e
                    == ProtocolError::UnknownMessageType,
            },
    {
        match value {
            0 => Ok(MessageTypeId::HandshakeInitiation),
            1 => Ok(MessageTypeId::HandshakeReply),
            2 => Ok(MessageTypeId::Block),
            3 => Ok(MessageTypeId::BlockHeader),
            4 => Ok(MessageTypeId::AskForBlocks),
            5 => Ok(MessageTypeId::AskPeerList),
            6 => Ok(MessageTypeId::PeerList),
            7 => Ok(MessageTypeId::BlockNotFound),
            8 => Ok(MessageTypeId::Operations),
            9 => Ok(MessageTypeId::Endorsements),
            10 => Ok(MessageTypeId::AskForOperation),
            11 => Ok(MessageTypeId::OperationsBatch),
            _ => Err(ProtocolError::UnknownMessageType),
        }
    }
}

} // verus!
