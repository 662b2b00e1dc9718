//! The laws of the message codec.
//!
//! What is written can be read back; a count above its maximum is refused;
//! a buffer cut short is reported as short; a number that stands for no
//! variant is refused. Each is proved from the laws that the nested values
//! bring with them.

use crate::compact::WireFormat;
use crate::context::SerializationContext;
use crate::error::{Field, ProtocolError};
use crate::fixed::{BlockId, OperationId, PublicKey};
use crate::ip::IpAddr;
use crate::messages::{
    count_limit, message_type, message_well_formed, message_within_limits, spec_decode_message,
    spec_decode_nested, spec_decode_payload, spec_encode_message, spec_encode_nested,
    spec_encode_payload, Message, MessageView,
};
use crate::operations::{
    lemma_operation_map_consumed, lemma_operation_map_round_trip, lemma_operation_map_truncated,
};
use crate::registry::{discriminant, variant_of, MessageTypeId, MESSAGE_TYPE_COUNT};
use crate::sequence::{
    lemma_collection_round_trip, lemma_collection_truncated, lemma_decode_collection_consumed,
    remaining,
};
use crate::varint::{
    lemma_parse_varint_consumed, parse_varint, spec_from_varint_bytes, VarintError,
};
use crate::version::Version;
use vstd::prelude::*;

verus! {

/// A nested value that was read is a value of its type and took no more
/// bytes than the buffer holds.
pub proof fn lemma_nested_consumed<T: WireFormat>(
    buf: Seq<u8>,
    field: Field,
    context: SerializationContext,
)
    ensures
        spec_decode_nested::<T>(buf, field, context) matches Ok((v, n)) ==> n <= buf.len()
            && T::well_formed(v),
{
    T::lemma_decode_consumed(buf, context);
}

/// Reading back a nested value that was written gives it back.
pub proof fn lemma_nested_round_trip<T: WireFormat>(
    v: T::V,
    rest: Seq<u8>,
    field: Field,
    context: SerializationContext,
)
    requires
        T::well_formed(v),
        T::within_limits(v, context),
        spec_encode_nested::<T>(v, field) is Ok,
    ensures
        spec_decode_nested::<T>(spec_encode_nested::<T>(v, field)->Ok_0 + rest, field, context)
            == Ok::<(T::V, nat), ProtocolError>((v, spec_encode_nested::<T>(v, field)->Ok_0.len())),
{
    T::lemma_round_trip(v, rest, context);
}

/// Reading a nested value from a strict prefix of what was written fails
/// because the buffer is short.
pub proof fn lemma_nested_truncated<T: WireFormat>(
    v: T::V,
    n: int,
    field: Field,
    context: SerializationContext,
)
    requires
        T::well_formed(v),
        T::within_limits(v, context),
        spec_encode_nested::<T>(v, field) is Ok,
        0 <= n < spec_encode_nested::<T>(v, field)->Ok_0.len(),
    ensures
        spec_decode_nested::<T>(spec_encode_nested::<T>(v, field)->Ok_0.take(n), field, context)
            == Err::<(T::V, nat), ProtocolError>(ProtocolError::Truncated),
{
    T::lemma_truncated(v, n, context);
}

/// The payload that was read is that of a message of the variant asked for,
/// and took no more bytes than the buffer holds.
pub proof fn lemma_payload_consumed<B: WireFormat, H: WireFormat, O: WireFormat, E: WireFormat>(
    id: MessageTypeId,
    buf: Seq<u8>,
    context: SerializationContext,
)
    ensures
        spec_decode_payload::<B, H, O, E>(id, buf, context) matches Ok((m, n)) ==> n <= buf.len()
            && message_type(m) == id && message_well_formed::<B, H, O, E>(m),
{
    match id {
        MessageTypeId::HandshakeInitiation => {
            match spec_decode_nested::<PublicKey>(buf, Field::PublicKey, context) {
                Ok((public_key, a)) => {
                    lemma_nested_consumed::<Version>(
                        remaining(buf, a + 32),
                        Field::Version,
                        context,
                    );
                },
                Err(_) => {},
            }
        },
        MessageTypeId::HandshakeReply => {},
        MessageTypeId::Block => {
            lemma_nested_consumed::<B>(buf, Field::Block, context);
        },
        MessageTypeId::BlockHeader => {
            lemma_nested_consumed::<H>(buf, Field::BlockHeader, context);
        },
        MessageTypeId::AskForBlocks => {
            lemma_decode_collection_consumed::<BlockId>(
                buf,
                context.max_ask_blocks_per_message,
                Field::BlockId,
                context,
            );
        },
        MessageTypeId::AskPeerList => {},
        MessageTypeId::PeerList => {
            lemma_decode_collection_consumed::<IpAddr>(
                buf,
                context.max_advertise_length,
                Field::PeerAddress,
                context,
            );
        },
        MessageTypeId::BlockNotFound => {},
        MessageTypeId::Operations => {
            lemma_operation_map_consumed::<O>(buf, context.max_operations_per_message, context);
        },
        MessageTypeId::Endorsements => {
            lemma_decode_collection_consumed::<E>(
                buf,
                context.max_endorsements_per_message,
                Field::Endorsement,
                context,
            );
        },
        MessageTypeId::AskForOperation => {
            lemma_decode_collection_consumed::<OperationId>(
                buf,
                context.max_operations_per_message,
                Field::OperationId,
                context,
            );
        },
        MessageTypeId::OperationsBatch => {
            lemma_decode_collection_consumed::<OperationId>(
                buf,
                context.max_operations_per_message,
                Field::OperationId,
                context,
            );
        },
    }
}

/// Reading back the payload that was written gives the message back, and
/// the length of the payload, whatever follows in the buffer.
pub proof fn lemma_payload_round_trip<B: WireFormat, H: WireFormat, O: WireFormat, E: WireFormat>(
    m: MessageView<B::V, H::V, O::V, E::V>,
    rest: Seq<u8>,
    context: SerializationContext,
)
    requires
        message_well_formed::<B, H, O, E>(m),
        message_within_limits::<B, H, O, E>(m, context),
        spec_encode_payload::<B, H, O, E>(m) is Ok,
    ensures
        spec_decode_payload::<B, H, O, E>(
            message_type(m),
            spec_encode_payload::<B, H, O, E>(m)->Ok_0 + rest,
            context,
        ) == Ok::<(MessageView<B::V, H::V, O::V, E::V>, nat), ProtocolError>(
            (m, spec_encode_payload::<B, H, O, E>(m)->Ok_0.len()),
        ),
{
    let payload = spec_encode_payload::<B, H, O, E>(m)->Ok_0;
    let buf = payload + rest;
    match m {
        MessageView::HandshakeInitiation { public_key, random_bytes, version } => {
            let tail = Version::spec_encode(version)->Ok_0;
            assert(buf.take(33) =~= public_key);
            assert(remaining(buf, 33).take(32) =~= random_bytes);
            assert(remaining(buf, 65) =~= tail + rest);
            lemma_nested_round_trip::<Version>(version, rest, Field::Version, context);
        },
        MessageView::HandshakeReply { signature } => {
            assert(buf.take(64) =~= signature);
        },
        MessageView::Block(block) => {
            lemma_nested_round_trip::<B>(block, rest, Field::Block, context);
        },
        MessageView::BlockHeader(header) => {
            lemma_nested_round_trip::<H>(header, rest, Field::BlockHeader, context);
        },
        MessageView::AskForBlocks(list) => {
            lemma_collection_round_trip::<BlockId>(
                list,
                rest,
                context.max_ask_blocks_per_message,
                Field::BlockId,
                context,
            );
        },
        MessageView::AskPeerList => {},
        MessageView::PeerList(peers) => {
            lemma_collection_round_trip::<IpAddr>(
                peers,
                rest,
                context.max_advertise_length,
                Field::PeerAddress,
                context,
            );
        },
        MessageView::BlockNotFound(id) => {
            assert(buf.take(32) =~= id);
        },
        MessageView::OperationsBatch(ids) => {
            lemma_collection_round_trip::<OperationId>(
                ids,
                rest,
                context.max_operations_per_message,
                Field::OperationId,
                context,
            );
        },
        MessageView::AskForOperations(ids) => {
            lemma_collection_round_trip::<OperationId>(
                ids,
                rest,
                context.max_operations_per_message,
                Field::OperationId,
                context,
            );
        },
        MessageView::Operations(entries) => {
            lemma_operation_map_round_trip::<O>(
                entries,
                rest,
                context.max_operations_per_message,
                context,
            );
        },
        MessageView::Endorsements(endorsements) => {
            lemma_collection_round_trip::<E>(
                endorsements,
                rest,
                context.max_endorsements_per_message,
                Field::Endorsement,
                context,
            );
        },
    }
}

/// Reading the payload from a strict prefix of what was written fails
/// because the buffer is short.
pub proof fn lemma_payload_truncated<B: WireFormat, H: WireFormat, O: WireFormat, E: WireFormat>(
    m: MessageView<B::V, H::V, O::V, E::V>,
    n: int,
    context: SerializationContext,
)
    requires
        message_well_formed::<B, H, O, E>(m),
        message_within_limits::<B, H, O, E>(m, context),
        spec_encode_payload::<B, H, O, E>(m) is Ok,
        0 <= n < spec_encode_payload::<B, H, O, E>(m)->Ok_0.len(),
    ensures
        spec_decode_payload::<B, H, O, E>(
            message_type(m),
            spec_encode_payload::<B, H, O, E>(m)->Ok_0.take(n),
            context,
        ) == Err::<(MessageView<B::V, H::V, O::V, E::V>, nat), ProtocolError>(
            ProtocolError::Truncated,
        ),
{
    let payload = spec_encode_payload::<B, H, O, E>(m)->Ok_0;
    let buf = payload.take(n);
    match m {
        MessageView::HandshakeInitiation { public_key, random_bytes, version } => {
            let tail = Version::spec_encode(version)->Ok_0;
            if n >= 65 {
                assert(remaining(buf, 65) =~= tail.take(n - 65));
                lemma_nested_truncated::<Version>(version, n - 65, Field::Version, context);
            }
        },
        MessageView::HandshakeReply { signature } => {},
        MessageView::Block(block) => {
            lemma_nested_truncated::<B>(block, n, Field::Block, context);
        },
        MessageView::BlockHeader(header) => {
            lemma_nested_truncated::<H>(header, n, Field::BlockHeader, context);
        },
        MessageView::AskForBlocks(list) => {
            lemma_collection_truncated::<BlockId>(
                list,
                n,
                context.max_ask_blocks_per_message,
                Field::BlockId,
                context,
            );
        },
        MessageView::AskPeerList => {},
        MessageView::PeerList(peers) => {
            lemma_collection_truncated::<IpAddr>(
                peers,
                n,
                context.max_advertise_length,
                Field::PeerAddress,
                context,
            );
        },
        MessageView::BlockNotFound(id) => {},
        MessageView::OperationsBatch(ids) => {
            lemma_collection_truncated::<OperationId>(
                ids,
                n,
                context.max_operations_per_message,
                Field::OperationId,
                context,
            );
        },
        MessageView::AskForOperations(ids) => {
            lemma_collection_truncated::<OperationId>(
                ids,
                n,
                context.max_operations_per_message,
                Field::OperationId,
                context,
            );
        },
        MessageView::Operations(entries) => {
            lemma_operation_map_truncated::<O>(
                entries,
                n,
                context.max_operations_per_message,
                context,
            );
        },
        MessageView::Endorsements(endorsements) => {
            lemma_collection_truncated::<E>(
                endorsements,
                n,
                context.max_endorsements_per_message,
                Field::Endorsement,
                context,
            );
        },
    }
}

/// A message that was decoded is a message of the variant that its number
/// stands for, and took no more bytes than the buffer holds: a caller may
/// decode the next message from where this one ends.
pub proof fn lemma_message_consumed<B: WireFormat, H: WireFormat, O: WireFormat, E: WireFormat>(
    buf: Seq<u8>,
    context: SerializationContext,
)
    ensures
        spec_decode_message::<B, H, O, E>(buf, context) matches Ok((m, n)) ==> n <= buf.len()
            && message_well_formed::<B, H, O, E>(m),
{
    lemma_parse_varint_consumed(buf, 5);
    match spec_from_varint_bytes(buf) {
        Ok((raw, n)) => match variant_of(raw as nat) {
            Some(id) => {
                lemma_payload_consumed::<B, H, O, E>(id, remaining(buf, n), context);
            },
            None => {},
        },
        Err(_) => {},
    }
}

/// For every message and every context whose maxima are not below the sizes
/// in the message, decoding the encoding of the message, with whatever
/// follows it in the buffer, gives the message and the length of its
/// encoding.
pub proof fn lemma_message_round_trip_in_stream<
    B: WireFormat,
    H: WireFormat,
    O: WireFormat,
    E: WireFormat,
>(m: MessageView<B::V, H::V, O::V, E::V>, rest: Seq<u8>, context: SerializationContext)
    requires
        message_well_formed::<B, H, O, E>(m),
        message_within_limits::<B, H, O, E>(m, context),
        spec_encode_message::<B, H, O, E>(m) is Ok,
    ensures
        spec_decode_message::<B, H, O, E>(
            spec_encode_message::<B, H, O, E>(m)->Ok_0 + rest,
            context,
        ) == Ok::<(MessageView<B::V, H::V, O::V, E::V>, nat), ProtocolError>(
            (m, spec_encode_message::<B, H, O, E>(m)->Ok_0.len()),
        ),
{
    let id = message_type(m);
    let payload = spec_encode_payload::<B, H, O, E>(m)->Ok_0;
    let head = seq![discriminant(id) as u8];
    let buf = (head + payload) + rest;
    assert(remaining(buf, 1) =~= payload + rest);
    lemma_payload_round_trip::<B, H, O, E>(m, rest, context);
}

/// For every message and every context whose maxima are not below the sizes
/// in the message, decoding the encoding of the message gives the message
/// and the length of its encoding.
pub proof fn lemma_message_round_trip<B: WireFormat, H: WireFormat, O: WireFormat, E: WireFormat>(
    m: MessageView<B::V, H::V, O::V, E::V>,
    context: SerializationContext,
)
    requires
        message_well_formed::<B, H, O, E>(m),
        message_within_limits::<B, H, O, E>(m, context),
        spec_encode_message::<B, H, O, E>(m) is Ok,
    ensures
        spec_decode_message::<B, H, O, E>(spec_encode_message::<B, H, O, E>(m)->Ok_0, context)
            == Ok::<(MessageView<B::V, H::V, O::V, E::V>, nat), ProtocolError>(
            (m, spec_encode_message::<B, H, O, E>(m)->Ok_0.len()),
        ),
{
    lemma_message_round_trip_in_stream::<B, H, O, E>(m, Seq::empty(), context);
}

/// Cutting the encoding of a message, under a context whose maxima are not
/// below the sizes in the message, anywhere before its end makes the decoder
/// report a short buffer.
pub proof fn lemma_message_truncated<B: WireFormat, H: WireFormat, O: WireFormat, E: WireFormat>(
    m: MessageView<B::V, H::V, O::V, E::V>,
    n: int,
    context: SerializationContext,
)
    requires
        message_well_formed::<B, H, O, E>(m),
        message_within_limits::<B, H, O, E>(m, context),
        spec_encode_message::<B, H, O, E>(m) is Ok,
        0 <= n < spec_encode_message::<B, H, O, E>(m)->Ok_0.len(),
    ensures
        spec_decode_message::<B, H, O, E>(
            spec_encode_message::<B, H, O, E>(m)->Ok_0.take(n),
            context,
        ) == Err::<(MessageView<B::V, H::V, O::V, E::V>, nat), ProtocolError>(
            ProtocolError::Truncated,
        ),
{
    let id = message_type(m);
    let payload = spec_encode_payload::<B, H, O, E>(m)->Ok_0;
    let head = seq![discriminant(id) as u8];
    let buf = (head + payload).take(n);
    if n > 0 {
        assert(remaining(buf, 1) =~= payload.take(n - 1));
        lemma_payload_truncated::<B, H, O, E>(m, n - 1, context);
    }
}

/// A buffer whose leading number stands for no variant is refused as an
/// unknown message type, whatever follows the number.
pub proof fn lemma_unknown_discriminant<B: WireFormat, H: WireFormat, O: WireFormat, E: WireFormat>(
    buf: Seq<u8>,
    raw: nat,
    taken: nat,
    context: SerializationContext,
)
    requires
        parse_varint(buf, 5) == Ok::<(nat, nat), VarintError>((raw, taken)),
        raw >= MESSAGE_TYPE_COUNT,
    ensures
        spec_decode_message::<B, H, O, E>(buf, context) == Err::<
            (MessageView<B::V, H::V, O::V, E::V>, nat),
            ProtocolError,
        >(ProtocolError::UnknownMessageType),
{
}

/// A buffer that names a variant with a collection and declares more items
/// than the context allows for that variant is refused because the bound is
/// exceeded, whatever follows the count.
pub proof fn lemma_bound_enforced<B: WireFormat, H: WireFormat, O: WireFormat, E: WireFormat>(
    buf: Seq<u8>,
    id: MessageTypeId,
    max: u32,
    count: nat,
    taken: nat,
    context: SerializationContext,
)
    requires
        buf.len() > 0,
        buf[0] == discriminant(id),
        count_limit(id, context) == Some(max),
        parse_varint(buf.skip(1), 5) == Ok::<(nat, nat), VarintError>((count, taken)),
        count > max,
    ensures
        spec_decode_message::<B, H, O, E>(buf, context) == Err::<
            (MessageView<B::V, H::V, O::V, E::V>, nat),
            ProtocolError,
        >(ProtocolError::BoundExceeded),
{
}

impl<B: WireFormat, H: WireFormat, O: WireFormat, E: WireFormat> WireFormat for Message<
    B,
    H,
    O,
    E,
> {
    open spec fn well_formed(v: Self::V) -> bool {
        message_well_formed::<B, H, O, E>(v)
    }

    open spec fn within_limits(v: Self::V, context: SerializationContext) -> bool {
        message_within_limits::<B, H, O, E>(v, context)
    }

    open spec fn spec_encode(v: Self::V) -> Result<Seq<u8>, ProtocolError> {
        spec_encode_message::<B, H, O, E>(v)
    }

    open spec fn spec_decode(buf: Seq<u8>, context: SerializationContext) -> Result<
        (Self::V, nat),
        ProtocolError,
    > {
        spec_decode_message::<B, H, O, E>(buf, context)
    }

    proof fn lemma_decode_consumed(buf: Seq<u8>, context: SerializationContext) {
        lemma_message_consumed::<B, H, O, E>(buf, context);
    }

    proof fn lemma_round_trip(v: Self::V, rest: Seq<u8>, context: SerializationContext) {
        lemma_message_round_trip_in_stream::<B, H, O, E>(v, rest, context);
    }

    proof fn lemma_truncated(v: Self::V, n: int, context: SerializationContext) {
        lemma_message_truncated::<B, H, O, E>(v, n, context);
    }
}

} // verus!
