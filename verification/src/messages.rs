//! The messages that two peers exchange, and their codec.
//!
//! On the wire a message is the number of its variant, as a variable-length
//! integer, followed by the payload of the variant. Blocks, block headers,
//! operations and endorsements are type parameters: the codec reads and
//! writes them through their own compact encoding.

use crate::compact::{DeserializeCompact, SerializeCompact, WireFormat};
use crate::context::SerializationContext;
use crate::error::{nested_failure, wrap_nested_failure, Field, ProtocolError};
use crate::fixed::{
    array_from_slice, array_to_vec, spec_decode_fixed, BlockId, OperationId, PublicKey, Signature,
    BLOCK_ID_SIZE_BYTES, HANDSHAKE_RANDOMNESS_SIZE_BYTES, PUBLIC_KEY_SIZE_BYTES,
    SIGNATURE_SIZE_BYTES,
};
use crate::ip::{IpAddr, IpAddrView};
use crate::keyed::distinct_keys;
use crate::operations::{
    derialize_operation_opt_map, deserialize_operation_ids,
    serialize_operation_ids, serialize_operation_opt_map, spec_decode_operation_map,
    spec_encode_operation_map, OperationEntry, OperationMap,
};
use crate::registry::{discriminant, variant_of, MessageTypeId};
use crate::sequence::{
    all_well_formed, all_within_limits, deserialize_items, remaining, serialize_items,
    spec_decode_collection, spec_encode_collection, views,
};
use crate::varint::{
    from_varint_bytes, spec_from_varint_bytes, to_varint_bytes, varint_bytes, VarintError,
};
use crate::version::{Version, VersionView};
use vstd::prelude::*;
use vstd::slice::slice_subrange;

verus! {

/// A message between two peers. `B` is the type of blocks, `H` of block
/// headers, `O` of operations and `E` of endorsements.
#[derive(Debug)]
pub enum Message<B, H, O, E> {
    /// Initiates a handshake.
    HandshakeInitiation {
        /// The key of the sender, by which the peer checks the reply.
        public_key: PublicKey,
        /// Random bytes that the peer is to sign.
        random_bytes: [u8; 32],
        /// The version of the sender.
        version: Version,
    },
    /// Replies to a handshake initiation.
    HandshakeReply {
        /// The signature of the random bytes that were received.
        signature: Signature,
    },
    /// A full block.
    Block(B),
    /// A block header.
    BlockHeader(H),
    /// Asks the peer for blocks.
    AskForBlocks(Vec<BlockId>),
    /// Asks the peer for the peers that it advertises.
    AskPeerList,
    /// The peers that the sender advertises, the most reliable first.
    PeerList(Vec<IpAddr>),
    /// A block that was asked for is not known.
    BlockNotFound(BlockId),
    /// Announces operations that the sender knows.
    OperationsBatch(Vec<OperationId>),
    /// Asks the peer for operations.
    AskForOperations(Vec<OperationId>),
    /// Operations that were asked for.
    Operations(OperationMap<O>),
    /// Endorsements.
    Endorsements(Vec<E>),
}

/// The model of a message, over the models of what it carries.
pub enum MessageView<B, H, O, E> {
    /// Initiates a handshake.
    HandshakeInitiation {
        /// The key of the sender.
        public_key: Seq<u8>,
        /// Random bytes that the peer is to sign.
        random_bytes: Seq<u8>,
        /// The version of the sender.
        version: VersionView,
    },
    /// Replies to a handshake initiation.
    HandshakeReply {
        /// The signature of the random bytes that were received.
        signature: Seq<u8>,
    },
    /// A full block.
    Block(B),
    /// A block header.
    BlockHeader(H),
    /// Asks the peer for blocks.
    AskForBlocks(Seq<Seq<u8>>),
    /// Asks the peer for the peers that it advertises.
    AskPeerList,
    /// The peers that the sender advertises.
    PeerList(Seq<IpAddrView>),
    /// A block that was asked for is not known.
    BlockNotFound(Seq<u8>),
    /// Announces operations that the sender knows.
    OperationsBatch(Seq<Seq<u8>>),
    /// Asks the peer for operations.
    AskForOperations(Seq<Seq<u8>>),
    /// Operations that were asked for, as the entries of the mapping.
    Operations(Seq<(Seq<u8>, Option<O>)>),
    /// Endorsements.
    Endorsements(Seq<E>),
}

impl<B: View, H: View, O: View, E: View> View for Message<B, H, O, E> {
    type V = MessageView<B::V, H::V, O::V, E::V>;

    open spec fn view(&self) -> Self::V {
        match self {
            Message::HandshakeInitiation { public_key, random_bytes, version } => {
                MessageView::HandshakeInitiation {
                    public_key: public_key@,
                    random_bytes: random_bytes@,
                    version: version@,
                }
            },
            Message::HandshakeReply { signature } => MessageView::HandshakeReply {
                signature: signature@,
            },
            Message::Block(block) => MessageView::Block(block@),
            Message::BlockHeader(header) => MessageView::BlockHeader(header@),
            Message::AskForBlocks(list) => MessageView::AskForBlocks(views(list@)),
            Message::AskPeerList => MessageView::AskPeerList,
            Message::PeerList(peers) => MessageView::PeerList(views(peers@)),
            Message::BlockNotFound(id) => MessageView::BlockNotFound(id@),
            Message::OperationsBatch(ids) => MessageView::OperationsBatch(views(ids@)),
            Message::AskForOperations(ids) => MessageView::AskForOperations(views(ids@)),
            Message::Operations(operations) => MessageView::Operations(operations@),
            Message::Endorsements(endorsements) => MessageView::Endorsements(
                views(endorsements@),
            ),
        }
    }
}

/// The variant of a message.
pub open spec fn message_type<B, H, O, E>(m: MessageView<B, H, O, E>) -> MessageTypeId {
    match m {
        MessageView::HandshakeInitiation { .. } => MessageTypeId::HandshakeInitiation,
        MessageView::HandshakeReply { .. } => MessageTypeId::HandshakeReply,
        MessageView::Block(_) => MessageTypeId::Block,
        MessageView::BlockHeader(_) => MessageTypeId::BlockHeader,
        MessageView::AskForBlocks(_) => MessageTypeId::AskForBlocks,
        MessageView::AskPeerList => MessageTypeId::AskPeerList,
        MessageView::PeerList(_) => MessageTypeId::PeerList,
        MessageView::BlockNotFound(_) => MessageTypeId::BlockNotFound,
        MessageView::OperationsBatch(_) => MessageTypeId::OperationsBatch,
        MessageView::AskForOperations(_) => MessageTypeId::AskForOperation,
        MessageView::Operations(_) => MessageTypeId::Operations,
        MessageView::Endorsements(_) => MessageTypeId::Endorsements,
    }
}

/// The most items that the collection of a variant may hold under `context`;
/// nothing for a variant without a collection.
pub open spec fn count_limit(id: MessageTypeId, context: SerializationContext) -> Option<u32> {
    match id {
        MessageTypeId::AskForBlocks => Some(context.max_ask_blocks_per_message),
        MessageTypeId::PeerList => Some(context.max_advertise_length),
        MessageTypeId::OperationsBatch => Some(context.max_operations_per_message),
        MessageTypeId::AskForOperation => Some(context.max_operations_per_message),
        MessageTypeId::Operations => Some(context.max_operations_per_message),
        MessageTypeId::Endorsements => Some(context.max_endorsements_per_message),
        _ => None,
    }
}

/// Whether `m` is the view of a message: every part has its width, every
/// nested value is a value of its type, and no identifier stands twice in the
/// mapping of operations.
pub open spec fn message_well_formed<B: WireFormat, H: WireFormat, O: WireFormat, E: WireFormat>(
    m: MessageView<B::V, H::V, O::V, E::V>,
) -> bool {
    match m {
        MessageView::HandshakeInitiation { public_key, random_bytes, version } => {
            &&& public_key.len() == PUBLIC_KEY_SIZE_BYTES
            &&& random_bytes.len() == HANDSHAKE_RANDOMNESS_SIZE_BYTES
            &&& Version::well_formed(version)
        },
        MessageView::HandshakeReply { signature } => signature.len() == SIGNATURE_SIZE_BYTES,
        MessageView::Block(block) => B::well_formed(block),
        MessageView::BlockHeader(header) => H::well_formed(header),
        MessageView::AskForBlocks(list) => all_well_formed::<BlockId>(list),
        MessageView::AskPeerList => true,
        MessageView::PeerList(peers) => all_well_formed::<IpAddr>(peers),
        MessageView::BlockNotFound(id) => id.len() == BLOCK_ID_SIZE_BYTES,
        MessageView::OperationsBatch(ids) => all_well_formed::<OperationId>(ids),
        MessageView::AskForOperations(ids) => all_well_formed::<OperationId>(ids),
        MessageView::Operations(entries) => all_well_formed::<OperationEntry<O>>(entries)
            && distinct_keys(entries),
        MessageView::Endorsements(endorsements) => all_well_formed::<E>(endorsements),
    }
}

/// The number of items in the collection of `m`; zero for a message without
/// a collection.
pub open spec fn message_count<B, H, O, E>(m: MessageView<B, H, O, E>) -> nat {
    match m {
        MessageView::AskForBlocks(list) => list.len(),
        MessageView::PeerList(peers) => peers.len(),
        MessageView::OperationsBatch(ids) => ids.len(),
        MessageView::AskForOperations(ids) => ids.len(),
        MessageView::Operations(entries) => entries.len(),
        MessageView::Endorsements(endorsements) => endorsements.len(),
        _ => 0,
    }
}

/// Whether `m` is within the limits of `context`: its collection holds no
/// more items than the maximum for its variant, and every nested value is
/// within the limits.
pub open spec fn message_within_limits<
    B: WireFormat,
    H: WireFormat,
    O: WireFormat,
    E: WireFormat,
>(m: MessageView<B::V, H::V, O::V, E::V>, context: SerializationContext) -> bool {
    &&& count_limit(message_type(m), context) matches Some(max) ==> message_count(m) <= max
    &&& match m {
        MessageView::Block(block) => B::within_limits(block, context),
        MessageView::BlockHeader(header) => H::within_limits(header, context),
        MessageView::Operations(entries) => all_within_limits::<OperationEntry<O>>(
            entries,
            context,
        ),
        MessageView::Endorsements(endorsements) => all_within_limits::<E>(endorsements, context),
        _ => true,
    }
}

/// The encoding of a nested value; its failure is laid to `field`.
pub open spec fn spec_encode_nested<T: WireFormat>(v: T::V, field: Field) -> Result<
    Seq<u8>,
    ProtocolError,
> {
    match T::spec_encode(v) {
        Ok(bytes) => Ok(bytes),
        Err(_) => Err(ProtocolError::NestedCodecError(field)),
    }
}

/// Reads a nested value from the front of `buf`; its failure is laid to
/// `field`, unless the buffer is short.
pub open spec fn spec_decode_nested<T: WireFormat>(
    buf: Seq<u8>,
    field: Field,
    context: SerializationContext,
) -> Result<(T::V, nat), ProtocolError> {
    match T::spec_decode(buf, context) {
        Ok(read) => Ok(read),
        Err(e) => Err(nested_failure(e, field)),
    }
}

/// The encoding of the payload of a message.
pub open spec fn spec_encode_payload<B: WireFormat, H: WireFormat, O: WireFormat, E: WireFormat>(
    m: MessageView<B::V, H::V, O::V, E::V>,
) -> Result<Seq<u8>, ProtocolError> {
    match m {
        MessageView::HandshakeInitiation { public_key, random_bytes, version } => {
            match spec_encode_nested::<Version>(version, Field::Version) {
                Ok(bytes) => Ok(public_key + random_bytes + bytes),
                Err(e) => Err(e),
            }
        },
        MessageView::HandshakeReply { signature } => Ok(signature),
        MessageView::Block(block) => spec_encode_nested::<B>(block, Field::Block),
        MessageView::BlockHeader(header) => spec_encode_nested::<H>(header, Field::BlockHeader),
        MessageView::AskForBlocks(list) => spec_encode_collection::<BlockId>(list, Field::BlockId),
        MessageView::AskPeerList => Ok(Seq::empty()),
        MessageView::PeerList(peers) => spec_encode_collection::<IpAddr>(
            peers,
            Field::PeerAddress,
        ),
        MessageView::BlockNotFound(id) => Ok(id),
        MessageView::OperationsBatch(ids) => spec_encode_collection::<OperationId>(
            ids,
            Field::OperationId,
        ),
        MessageView::AskForOperations(ids) => spec_encode_collection::<OperationId>(
            ids,
            Field::OperationId,
        ),
        MessageView::Operations(entries) => spec_encode_operation_map::<O>(entries),
        MessageView::Endorsements(endorsements) => spec_encode_collection::<E>(
            endorsements,
            Field::Endorsement,
        ),
    }
}

/// The encoding of a message: the number of its variant, then its payload.
pub open spec fn spec_encode_message<B: WireFormat, H: WireFormat, O: WireFormat, E: WireFormat>(
    m: MessageView<B::V, H::V, O::V, E::V>,
) -> Result<Seq<u8>, ProtocolError> {
    match spec_encode_payload::<B, H, O, E>(m) {
        Ok(payload) => Ok(varint_bytes(discriminant(message_type(m)) as nat) + payload),
        Err(e) => Err(e),
    }
}

/// Reads the payload of a handshake initiation.
pub open spec fn spec_decode_handshake<B, H, O, E>(
    buf: Seq<u8>,
    context: SerializationContext,
) -> Result<(MessageView<B, H, O, E>, nat), ProtocolError> {
    match spec_decode_nested::<PublicKey>(buf, Field::PublicKey, context) {
        Err(e) => Err(e),
        Ok((public_key, a)) => match spec_decode_fixed(
            remaining(buf, a),
            HANDSHAKE_RANDOMNESS_SIZE_BYTES as nat,
        ) {
            Err(e) => Err(e),
            Ok((random_bytes, b)) => match spec_decode_nested::<Version>(
                remaining(buf, a + b),
                Field::Version,
                context,
            ) {
                Err(e) => Err(e),
                Ok((version, c)) => Ok(
                    (
                        MessageView::HandshakeInitiation { public_key, random_bytes, version },
                        a + b + c,
                    ),
                ),
            },
        },
    }
}

/// Reads the payload of the variant `id` from the front of `buf`: the
/// message and the number of bytes that the payload took.
pub open spec fn spec_decode_payload<B: WireFormat, H: WireFormat, O: WireFormat, E: WireFormat>(
    id: MessageTypeId,
    buf: Seq<u8>,
    context: SerializationContext,
) -> Result<(MessageView<B::V, H::V, O::V, E::V>, nat), ProtocolError> {
    match id {
        MessageTypeId::HandshakeInitiation => spec_decode_handshake(buf, context),
        MessageTypeId::HandshakeReply => match spec_decode_nested::<Signature>(
            buf,
            Field::Signature,
            context,
        ) {
            Ok((signature, n)) => Ok((MessageView::HandshakeReply { signature }, n)),
            Err(e) => Err(e),
        },
        MessageTypeId::Block => match spec_decode_nested::<B>(buf, Field::Block, context) {
            Ok((block, n)) => Ok((MessageView::Block(block), n)),
            Err(e) => Err(e),
        },
        MessageTypeId::BlockHeader => match spec_decode_nested::<H>(
            buf,
            Field::BlockHeader,
            context,
        ) {
            Ok((header, n)) => Ok((MessageView::BlockHeader(header), n)),
            Err(e) => Err(e),
        },
        MessageTypeId::AskForBlocks => match spec_decode_collection::<BlockId>(
            buf,
            context.max_ask_blocks_per_message,
            Field::BlockId,
            context,
        ) {
            Ok((list, n)) => Ok((MessageView::AskForBlocks(list), n)),
            Err(e) => Err(e),
        },
        MessageTypeId::AskPeerList => Ok((MessageView::AskPeerList, 0)),
        MessageTypeId::PeerList => match spec_decode_collection::<IpAddr>(
            buf,
            context.max_advertise_length,
            Field::PeerAddress,
            context,
        ) {
            Ok((peers, n)) => Ok((MessageView::PeerList(peers), n)),
            Err(e) => Err(e),
        },
        MessageTypeId::BlockNotFound => match spec_decode_nested::<BlockId>(
            buf,
            Field::BlockId,
            context,
        ) {
            Ok((id, n)) => Ok((MessageView::BlockNotFound(id), n)),
            Err(e) => Err(e),
        },
        MessageTypeId::Operations => match spec_decode_operation_map::<O>(
            buf,
            context.max_operations_per_message,
            context,
        ) {
            Ok((entries, n)) => Ok((MessageView::Operations(entries), n)),
            Err(e) => Err(e),
        },
        MessageTypeId::Endorsements => match spec_decode_collection::<E>(
            buf,
            context.max_endorsements_per_message,
            Field::Endorsement,
            context,
        ) {
            Ok((endorsements, n)) => Ok((MessageView::Endorsements(endorsements), n)),
            Err(e) => Err(e),
        },
        MessageTypeId::AskForOperation => match spec_decode_collection::<OperationId>(
            buf,
            context.max_operations_per_message,
            Field::OperationId,
            context,
        ) {
            Ok((ids, n)) => Ok((MessageView::AskForOperations(ids), n)),
            Err(e) => Err(e),
        },
        MessageTypeId::OperationsBatch => match spec_decode_collection::<OperationId>(
            buf,
            context.max_operations_per_message,
            Field::OperationId,
            context,
        ) {
            Ok((ids, n)) => Ok((MessageView::OperationsBatch(ids), n)),
            Err(e) => Err(e),
        },
    }
}

/// Reads one message from the front of `buf`: the message and the number of
/// bytes that it took. A number that stands for no variant, or that does not
/// fit in 32 bits, is refused as an unknown message type.
pub open spec fn spec_decode_message<B: WireFormat, H: WireFormat, O: WireFormat, E: WireFormat>(
    buf: Seq<u8>,
    context: SerializationContext,
) -> Result<(MessageView<B::V, H::V, O::V, E::V>, nat), ProtocolError> {
    match spec_from_varint_bytes(buf) {
        Err(VarintError::Truncated) => Err(ProtocolError::Truncated),
        Err(VarintError::TooLarge) => Err(ProtocolError::UnknownMessageType),
        Ok((raw, n)) => match variant_of(raw as nat) {
            None => Err(ProtocolError::UnknownMessageType),
            Some(id) => match spec_decode_payload::<B, H, O, E>(id, remaining(buf, n), context) {
                Ok((m, k)) => Ok((m, n + k)),
                Err(e) => Err(e),
            },
        },
    }
}

/// Appends the encoding of a nested value to `res`. On failure `res` is left
/// as it was.
pub fn serialize_nested<T: SerializeCompact>(res: &mut Vec<u8>, value: &T, field: Field) -> (r:
    Result<(), ProtocolError>)
    ensures
        match r {
            Ok(()) => spec_encode_nested::<T>(value@, field) is Ok && final(res)@ == old(res)@
                + spec_encode_nested::<T>(value@, field)->Ok_0 && T::well_formed(value@),
            Err(e) => spec_encode_nested::<T>(value@, field) == Err::<Seq<u8>, ProtocolError>(e)
                && final(res)@ == old(res)@,
        },
{
    match value.to_bytes_compact() {
        Ok(mut bytes) => {
            res.append(&mut bytes);
            Ok(())
        },
        Err(_) => Err(ProtocolError::NestedCodecError(field)),
    }
}

/// Reads a nested value from `buffer`, starting at `cursor`, and moves the
/// cursor behind it. On failure the cursor stays.
pub fn deserialize_nested<T: DeserializeCompact>(
    buffer: &[u8],
    cursor: &mut usize,
    field: Field,
    context: &SerializationContext,
) -> (r: Result<T, ProtocolError>)
    ensures
        match r {
            Ok(value) => spec_decode_nested::<T>(
                remaining(buffer@, *old(cursor) as nat),
                field,
                *context,
            ) == Ok::<(T::V, nat), ProtocolError>(
                (value@, (*final(cursor) - *old(cursor)) as nat),
            ) && *old(cursor) <= *final(cursor) && (*old(cursor) <= buffer@.len() ==> *final(cursor)
                <= buffer@.len()) && T::well_formed(value@),
            Err(e) => spec_decode_nested::<T>(
                remaining(buffer@, *old(cursor) as nat),
                field,
                *context,
            ) == Err::<(T::V, nat), ProtocolError>(e) && *final(cursor) == *old(cursor),
        },
{
    let start: usize = *cursor;
    let rest = if start <= buffer.len() {
        slice_subrange(buffer, start, buffer.len())
    } else {
        slice_subrange(buffer, 0, 0)
    };
    assert(rest@ =~= remaining(buffer@, start as nat));
    match T::from_bytes_compact(rest, context) {
        Ok((value, n)) => {
            *cursor = start + n;
            Ok(value)
        },
        Err(e) => Err(wrap_nested_failure(e, field)),
    }
}

/// Reads the `N` bytes at `cursor` and moves the cursor behind them. On
/// failure the cursor stays.
pub fn read_array<const N: usize>(buffer: &[u8], cursor: &mut usize) -> (r: Result<
    [u8; N],
    ProtocolError,
>)
    ensures
        match r {
            Ok(a) => spec_decode_fixed(remaining(buffer@, *old(cursor) as nat), N as nat) == Ok::<
                (Seq<u8>, nat),
                ProtocolError,
            >((a@, N as nat)) && *final(cursor) == *old(cursor) + N && (*old(cursor)
                <= buffer@.len() ==> *final(cursor) <= buffer@.len()),
            Err(e) => spec_decode_fixed(remaining(buffer@, *old(cursor) as nat), N as nat) == Err::<
                (Seq<u8>, nat),
                ProtocolError,
            >(e) && *final(cursor) == *old(cursor),
        },
{
    let start: usize = *cursor;
    let rest = if start <= buffer.len() {
        slice_subrange(buffer, start, buffer.len())
    } else {
        slice_subrange(buffer, 0, 0)
    };
    assert(rest@ =~= remaining(buffer@, start as nat));
    match array_from_slice::<N>(rest) {
        Ok(a) => {
            *cursor = start + N;
            Ok(a)
        },
        Err(e) => Err(e),
    }
}

impl<
    B: SerializeCompact,
    H: SerializeCompact,
    O: SerializeCompact,
    E: SerializeCompact,
> SerializeCompact for Message<B, H, O, E> {
    /// Writes the message: the number of its variant, then its payload. Fails
    /// where a nested value cannot be written, or where a collection is too
    /// long for its count.
    fn to_bytes_compact(&self) -> (r: Result<Vec<u8>, ProtocolError>) {
        let mut res: Vec<u8> = Vec::new();
        match self {
            Message::HandshakeInitiation { public_key, random_bytes, version } => {
                res = to_varint_bytes(MessageTypeId::HandshakeInitiation.to_u32());
                let mut key = array_to_vec(&public_key.bytes);
                res.append(&mut key);
                let mut random = array_to_vec(random_bytes);
                res.append(&mut random);
                let ghost head = res@;
                serialize_nested::<Version>(&mut res, version, Field::Version)?;
                proof {
                    let tail = spec_encode_nested::<Version>(version@, Field::Version)->Ok_0;
                    assert(res@ =~= varint_bytes(0) + (public_key@ + random_bytes@ + tail));
                }
            },
            Message::HandshakeReply { signature } => {
                res = to_varint_bytes(MessageTypeId::HandshakeReply.to_u32());
                let mut bytes = array_to_vec(&signature.bytes);
                res.append(&mut bytes);
            },
            Message::Block(block) => {
                res = to_varint_bytes(MessageTypeId::Block.to_u32());
                serialize_nested::<B>(&mut res, block, Field::Block)?;
            },
            Message::BlockHeader(header) => {
                res = to_varint_bytes(MessageTypeId::BlockHeader.to_u32());
                serialize_nested::<H>(&mut res, header, Field::BlockHeader)?;
            },
            Message::AskForBlocks(list) => {
                res = to_varint_bytes(MessageTypeId::AskForBlocks.to_u32());
                serialize_items::<BlockId>(&mut res, list, Field::BlockId)?;
            },
            Message::AskPeerList => {
                res = to_varint_bytes(MessageTypeId::AskPeerList.to_u32());
            },
            Message::PeerList(peers) => {
                res = to_varint_bytes(MessageTypeId::PeerList.to_u32());
                serialize_items::<IpAddr>(&mut res, peers, Field::PeerAddress)?;
            },
            Message::BlockNotFound(id) => {
                res = to_varint_bytes(MessageTypeId::BlockNotFound.to_u32());
                let mut bytes = array_to_vec(&id.bytes);
                res.append(&mut bytes);
            },
            Message::AskForOperations(ids) => {
                res = to_varint_bytes(MessageTypeId::AskForOperation.to_u32());
                serialize_operation_ids(&mut res, ids)?;
            },
            Message::OperationsBatch(ids) => {
                res = to_varint_bytes(MessageTypeId::OperationsBatch.to_u32());
                serialize_operation_ids(&mut res, ids)?;
            },
            Message::Operations(operations) => {
                res = to_varint_bytes(MessageTypeId::Operations.to_u32());
                serialize_operation_opt_map::<O>(&mut res, operations)?;
            },
            Message::Endorsements(endorsements) => {
                res = to_varint_bytes(MessageTypeId::Endorsements.to_u32());
                serialize_items::<E>(&mut res, endorsements, Field::Endorsement)?;
            },
        }
        Ok(res)
    }
}

impl<
    B: DeserializeCompact,
    H: DeserializeCompact,
    O: DeserializeCompact,
    E: DeserializeCompact,
> DeserializeCompact for Message<B, H, O, E> {
    /// Reads one message from the front of `buffer`: the message and the
    /// number of bytes that it took. The count of a collection is held
    /// against the maximum that `context` gives for the variant before any
    /// item is read.
    fn from_bytes_compact(buffer: &[u8], context: &SerializationContext) -> (r: Result<
        (Self, usize),
        ProtocolError,
    >) {
        let (type_id_raw, delta) = match from_varint_bytes(buffer) {
            Ok(read) => read,
            Err(VarintError::Truncated) => {
                return Err(ProtocolError::Truncated);
            },
            Err(VarintError::TooLarge) => {
                return Err(ProtocolError::UnknownMessageType);
            },
        };
        let type_id = MessageTypeId::try_from_u32(type_id_raw)?;
        let payload = slice_subrange(buffer, delta, buffer.len());
        let mut cursor: usize = 0;
        proof {
            assert(remaining(payload@, 0) =~= payload@);
        }
        let res = match type_id {
            MessageTypeId::HandshakeInitiation => {
                let public_key = deserialize_nested::<PublicKey>(
                    payload,
                    &mut cursor,
                    Field::PublicKey,
                    context,
                )?;
                let random_bytes = read_array::<32>(payload, &mut cursor)?;
                let version = deserialize_nested::<Version>(
                    payload,
                    &mut cursor,
                    Field::Version,
                    context,
                )?;
                Message::HandshakeInitiation { public_key, random_bytes, version }
            },
            MessageTypeId::HandshakeReply => {
                let signature = deserialize_nested::<Signature>(
                    payload,
                    &mut cursor,
                    Field::Signature,
                    context,
                )?;
                Message::HandshakeReply { signature }
            },
            MessageTypeId::Block => {
                let block = deserialize_nested::<B>(payload, &mut cursor, Field::Block, context)?;
                Message::Block(block)
            },
            MessageTypeId::BlockHeader => {
                let header = deserialize_nested::<H>(
                    payload,
                    &mut cursor,
                    Field::BlockHeader,
                    context,
                )?;
                Message::BlockHeader(header)
            },
            MessageTypeId::AskForBlocks => {
                let list = deserialize_items::<BlockId>(
                    payload,
                    &mut cursor,
                    context.max_ask_blocks_per_message,
                    Field::BlockId,
                    context,
                )?;
                Message::AskForBlocks(list)
            },
            MessageTypeId::AskPeerList => Message::AskPeerList,
            MessageTypeId::PeerList => {
                let peers = deserialize_items::<IpAddr>(
                    payload,
                    &mut cursor,
                    context.max_advertise_length,
                    Field::PeerAddress,
                    context,
                )?;
                Message::PeerList(peers)
            },
            MessageTypeId::BlockNotFound => {
                let id = deserialize_nested::<BlockId>(
                    payload,
                    &mut cursor,
                    Field::BlockId,
                    context,
                )?;
                Message::BlockNotFound(id)
            },
            MessageTypeId::Operations => Message::Operations(
                derialize_operation_opt_map::<O>(
                    payload,
                    &mut cursor,
                    context.max_operations_per_message,
                    context,
                )?,
            ),
            MessageTypeId::AskForOperation => Message::AskForOperations(
                deserialize_operation_ids(
                    payload,
                    &mut cursor,
                    context.max_operations_per_message,
                )?,
            ),
            MessageTypeId::OperationsBatch => Message::OperationsBatch(
                deserialize_operation_ids(
                    payload,
                    &mut cursor,
                    context.max_operations_per_message,
                )?,
            ),
            MessageTypeId::Endorsements => {
                let endorsements = deserialize_items::<E>(
                    payload,
                    &mut cursor,
                    context.max_endorsements_per_message,
                    Field::Endorsement,
                    context,
                )?;
                Message::Endorsements(endorsements)
            },
        };
        Ok((res, delta + cursor))
    }
}

} // verus!
