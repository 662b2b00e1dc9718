use rand::rngs::StdRng;
use rand::{RngCore, SeedableRng};
use wire_messages::compact::{DeserializeCompact, SerializeCompact};
use wire_messages::fixed::{BlockId, OperationId, PublicKey, Signature};
use wire_messages::ip::IpAddr;
use wire_messages::messages::Message;
use wire_messages::operations::OperationMap;
use wire_messages::varint::to_varint_bytes;
use wire_messages::version::Version;
use wire_messages::{Field, ProtocolError, SerializationContext};

// Stand-ins for the four kinds of nested object: a block of fixed width, a
// header of fixed width, an operation and an endorsement of variable width.
type Msg = Message<Signature, BlockId, Version, IpAddr>;

fn initialize_context() -> SerializationContext {
    SerializationContext {
        max_operations_per_block: 1024,
        thread_count: 2,
        max_advertise_length: 128,
        max_message_size: 3 * 1024 * 1024,
        max_block_size: 3 * 1024 * 1024,
        max_bootstrap_blocks: 100,
        max_bootstrap_cliques: 100,
        max_bootstrap_deps: 100,
        max_bootstrap_children: 100,
        max_ask_blocks_per_message: 10,
        max_operations_per_message: 1024,
        max_endorsements_per_message: 1024,
        max_bootstrap_message_size: 100000000,
        max_bootstrap_pos_entries: 1000,
        max_bootstrap_pos_cycles: 5,
        endorsement_count: 8,
    }
}

fn block_id(fill: u8) -> BlockId {
    BlockId::from_bytes(&[fill; 32])
}

fn operation_id(fill: u8) -> OperationId {
    OperationId::from_bytes(&[fill; 32])
}

fn version(major: u32, minor: u32) -> Version {
    Version { instance: *b"TEST", major, minor }
}

fn decode(buffer: &[u8], context: &SerializationContext) -> Result<(Msg, usize), ProtocolError> {
    Msg::from_bytes_compact(buffer, context)
}

fn failure(buffer: &[u8], context: &SerializationContext) -> ProtocolError {
    match decode(buffer, context) {
        Ok(_) => panic!("decoding succeeded"),
        Err(e) => e,
    }
}

/// One message of every variant, each within the limits of the default
/// context.
fn samples() -> Vec<Msg> {
    let mut operations: OperationMap<Version> = OperationMap::new();
    operations.insert(operation_id(1), Some(version(300, 7)));
    operations.insert(operation_id(2), None);
    operations.insert(operation_id(3), Some(version(0, u32::MAX)));
    vec![
        Message::HandshakeInitiation {
            public_key: PublicKey::from_bytes(&[9; 33]),
            random_bytes: [5; 32],
            version: version(1, 2),
        },
        Message::HandshakeReply { signature: Signature::from_bytes(&[7; 64]) },
        Message::Block(Signature::from_bytes(&[8; 64])),
        Message::BlockHeader(block_id(4)),
        Message::AskForBlocks(vec![block_id(0xaa), block_id(0xbb)]),
        Message::AskPeerList,
        Message::PeerList(vec![IpAddr::V4([127, 0, 0, 1]), IpAddr::V6([0xfe; 16])]),
        Message::BlockNotFound(block_id(0xcc)),
        Message::OperationsBatch(vec![operation_id(1), operation_id(2), operation_id(3)]),
        Message::AskForOperations(vec![operation_id(4)]),
        Message::Operations(operations),
        Message::Endorsements(vec![IpAddr::V6([1; 16]), IpAddr::V4([10, 0, 0, 1])]),
    ]
}

#[test]
fn test_ser_deser() {
    let context = initialize_context();
    let mut random_bytes = [0u8; 32];
    StdRng::from_entropy().fill_bytes(&mut random_bytes);
    let mut key_bytes = [0u8; 33];
    StdRng::from_entropy().fill_bytes(&mut key_bytes);
    let public_key = PublicKey::from_bytes(&key_bytes);
    let msg: Msg = Message::HandshakeInitiation {
        public_key,
        random_bytes,
        version: Version::from_str("TEST.1.2").unwrap(),
    };
    let ser = msg.to_bytes_compact().unwrap();
    let (deser, _) = Msg::from_bytes_compact(&ser, &context).unwrap();
    match (msg, deser) {
        (
            Message::HandshakeInitiation { public_key: pk1, random_bytes: rb1, version: v1 },
            Message::HandshakeInitiation { public_key, random_bytes, version },
        ) => {
            assert_eq!(pk1, public_key);
            assert_eq!(rb1, random_bytes);
            assert_eq!(v1, version);
        }
        _ => panic!("unexpected message"),
    }
}

#[test]
fn handshake_initiation_exact_bytes() {
    let msg: Msg = Message::HandshakeInitiation {
        public_key: PublicKey::from_bytes(&[9; 33]),
        random_bytes: [5; 32],
        version: Version::from_str("TEST.1.300").unwrap(),
    };
    let mut expected = vec![0u8];
    expected.extend([9u8; 33]);
    expected.extend([5u8; 32]);
    expected.extend(*b"TEST");
    expected.extend([1u8, 0xac, 0x02]);
    assert_eq!(msg.to_bytes_compact().unwrap(), expected);
}

#[test]
fn every_variant_starts_with_its_discriminant() {
    let expected: [u8; 12] = [0, 1, 2, 3, 4, 5, 6, 7, 11, 10, 8, 9];
    let messages = samples();
    assert_eq!(messages.len(), expected.len());
    for (msg, first) in messages.iter().zip(expected) {
        assert_eq!(msg.to_bytes_compact().unwrap()[0], first);
    }
}

#[test]
fn every_variant_reads_back_with_its_length() {
    let context = initialize_context();
    for msg in samples() {
        let ser = msg.to_bytes_compact().unwrap();
        let (deser, consumed) = decode(&ser, &context).unwrap();
        assert_eq!(consumed, ser.len());
        assert_eq!(deser.to_bytes_compact().unwrap(), ser);
        assert_eq!(format!("{:?}", deser), format!("{:?}", msg));
    }
}

#[test]
fn every_variant_reads_back_whatever_follows() {
    let context = initialize_context();
    for msg in samples() {
        let ser = msg.to_bytes_compact().unwrap();
        let mut longer = ser.clone();
        longer.extend([0xff, 0x00, 0x80]);
        let (deser, consumed) = decode(&longer, &context).unwrap();
        assert_eq!(consumed, ser.len());
        assert_eq!(format!("{:?}", deser), format!("{:?}", msg));
    }
}

#[test]
fn messages_decode_back_to_back_from_one_stream() {
    let context = initialize_context();
    let messages = samples();
    let mut stream: Vec<u8> = Vec::new();
    for msg in &messages {
        stream.extend(msg.to_bytes_compact().unwrap());
    }
    let mut at = 0;
    for msg in &messages {
        let (deser, consumed) = decode(&stream[at..], &context).unwrap();
        assert_eq!(format!("{:?}", deser), format!("{:?}", msg));
        at += consumed;
    }
    assert_eq!(at, stream.len());
}

#[test]
fn every_strict_prefix_of_every_variant_is_truncated() {
    let context = initialize_context();
    for msg in samples() {
        let ser = msg.to_bytes_compact().unwrap();
        for cut in 0..ser.len() {
            assert_eq!(failure(&ser[..cut], &context), ProtocolError::Truncated);
        }
    }
}

#[test]
fn empty_buffer_is_truncated() {
    assert_eq!(failure(&[], &initialize_context()), ProtocolError::Truncated);
}

#[test]
fn unknown_discriminant_is_refused() {
    let context = initialize_context();
    assert_eq!(failure(&[12], &context), ProtocolError::UnknownMessageType);
    assert_eq!(failure(&[12, 1, 2, 3], &context), ProtocolError::UnknownMessageType);
    assert_eq!(failure(&[127], &context), ProtocolError::UnknownMessageType);
    assert_eq!(failure(&to_varint_bytes(200), &context), ProtocolError::UnknownMessageType);
    assert_eq!(failure(&to_varint_bytes(u32::MAX), &context), ProtocolError::UnknownMessageType);
}

#[test]
fn discriminant_above_32_bits_is_refused() {
    let context = initialize_context();
    assert_eq!(
        failure(&[0xff, 0xff, 0xff, 0xff, 0x7f], &context),
        ProtocolError::UnknownMessageType
    );
    assert_eq!(
        failure(&[0x80, 0x80, 0x80, 0x80, 0x80, 0x01], &context),
        ProtocolError::UnknownMessageType
    );
}

#[test]
fn ask_for_blocks_exact_bytes_and_bound() {
    let context = initialize_context();
    let msg: Msg = Message::AskForBlocks(vec![block_id(0xaa), block_id(0xbb)]);
    let ser = msg.to_bytes_compact().unwrap();
    let mut expected: Vec<u8> = Vec::new();
    expected.extend(to_varint_bytes(4));
    expected.extend(to_varint_bytes(2));
    expected.extend(block_id(0xaa).to_bytes());
    expected.extend(block_id(0xbb).to_bytes());
    assert_eq!(ser, expected);
    assert_eq!(ser.len(), 66);
    assert_eq!(&ser[..2], &[4, 2]);

    match decode(&ser, &context).unwrap() {
        (Message::AskForBlocks(list), 66) => {
            assert_eq!(list, vec![block_id(0xaa), block_id(0xbb)]);
        }
        _ => panic!("unexpected message"),
    }

    let mut narrow = initialize_context();
    narrow.max_ask_blocks_per_message = 1;
    assert_eq!(failure(&ser, &narrow), ProtocolError::BoundExceeded);
}

#[test]
fn count_at_the_maximum_is_accepted() {
    let mut context = initialize_context();
    context.max_ask_blocks_per_message = 2;
    let msg: Msg = Message::AskForBlocks(vec![block_id(1), block_id(2)]);
    let ser = msg.to_bytes_compact().unwrap();
    assert!(decode(&ser, &context).is_ok());
}

#[test]
fn declared_count_above_the_maximum_is_refused_for_every_collection() {
    let mut context = initialize_context();
    context.max_ask_blocks_per_message = 3;
    context.max_advertise_length = 4;
    context.max_operations_per_message = 5;
    context.max_endorsements_per_message = 6;
    // discriminant, then a count one above the maximum, then nothing
    for (discriminant, max) in [(4u8, 3u8), (6, 4), (8, 5), (10, 5), (11, 5), (9, 6)] {
        assert_eq!(failure(&[discriminant, max + 1], &context), ProtocolError::BoundExceeded);
        // at the maximum the count is accepted and the items are missed
        assert_eq!(failure(&[discriminant, max], &context), ProtocolError::Truncated);
    }
}

#[test]
fn huge_declared_count_is_refused_at_once() {
    let context = initialize_context();
    for discriminant in [4u8, 6, 8, 9, 10, 11] {
        let mut buffer = vec![discriminant];
        buffer.extend(to_varint_bytes(u32::MAX));
        assert_eq!(failure(&buffer, &context), ProtocolError::BoundExceeded);
        // a count that does not even fit in 32 bits
        let buffer = [discriminant, 0xff, 0xff, 0xff, 0xff, 0x7f];
        assert_eq!(failure(&buffer, &context), ProtocolError::BoundExceeded);
    }
}

#[test]
fn zero_maximum_allows_only_the_empty_collection() {
    let mut context = initialize_context();
    context.max_advertise_length = 0;
    let empty: Msg = Message::PeerList(vec![]);
    let ser = empty.to_bytes_compact().unwrap();
    assert_eq!(ser, vec![6, 0]);
    match decode(&ser, &context).unwrap() {
        (Message::PeerList(peers), 2) => assert!(peers.is_empty()),
        _ => panic!("unexpected message"),
    }
    let one: Msg = Message::PeerList(vec![IpAddr::V4([1, 2, 3, 4])]);
    assert_eq!(failure(&one.to_bytes_compact().unwrap(), &context), ProtocolError::BoundExceeded);
}

#[test]
fn operations_presence_tag_fixture() {
    let mut operations: OperationMap<Version> = OperationMap::new();
    operations.insert(operation_id(0x11), Some(version(1, 2)));
    operations.insert(operation_id(0x22), None);
    let msg: Msg = Message::Operations(operations);
    let ser = msg.to_bytes_compact().unwrap();

    let mut expected: Vec<u8> = vec![8, 2];
    expected.extend([0x11u8; 32]);
    expected.extend([0u8, 0, 0, 1]);
    expected.extend(*b"TEST");
    expected.extend([1u8, 2]);
    expected.extend([0x22u8; 32]);
    expected.extend([0u8, 0, 0, 0]);
    assert_eq!(ser, expected);
}

#[test]
fn operations_mapping_reads_back_in_either_order() {
    let context = initialize_context();
    let op1 = version(41, 42);

    let mut forward: OperationMap<Version> = OperationMap::new();
    forward.insert(operation_id(1), Some(op1));
    forward.insert(operation_id(2), None);
    let mut backward: OperationMap<Version> = OperationMap::new();
    backward.insert(operation_id(2), None);
    backward.insert(operation_id(1), Some(op1));

    for operations in [forward, backward] {
        let msg: Msg = Message::Operations(operations);
        let ser = msg.to_bytes_compact().unwrap();
        match decode(&ser, &context).unwrap() {
            (Message::Operations(read), consumed) => {
                assert_eq!(consumed, ser.len());
                assert_eq!(read.len(), 2);
                assert_eq!(read.get(&operation_id(1)), Some(&Some(op1)));
                assert_eq!(read.get(&operation_id(2)), Some(&None));
                assert_eq!(read.get(&operation_id(3)), None);
            }
            _ => panic!("unexpected message"),
        }
    }
}

#[test]
fn operations_any_nonzero_tag_means_present() {
    let context = initialize_context();
    let mut buffer: Vec<u8> = vec![8, 1];
    buffer.extend([0x33u8; 32]);
    buffer.extend([0x01u8, 0, 0, 0]);
    buffer.extend(*b"MAIN");
    buffer.extend([3u8, 4]);
    match decode(&buffer, &context).unwrap() {
        (Message::Operations(read), consumed) => {
            assert_eq!(consumed, buffer.len());
            let expected = Version { instance: *b"MAIN", major: 3, minor: 4 };
            assert_eq!(read.get(&operation_id(0x33)), Some(&Some(expected)));
        }
        _ => panic!("unexpected message"),
    }
}

#[test]
fn operations_later_entry_of_an_identifier_stays() {
    let context = initialize_context();
    let mut buffer: Vec<u8> = vec![8, 3];
    buffer.extend([0x44u8; 32]);
    buffer.extend([0u8, 0, 0, 1]);
    buffer.extend(*b"TEST");
    buffer.extend([1u8, 1]);
    buffer.extend([0x55u8; 32]);
    buffer.extend([0u8, 0, 0, 0]);
    buffer.extend([0x44u8; 32]);
    buffer.extend([0u8, 0, 0, 0]);
    match decode(&buffer, &context).unwrap() {
        (Message::Operations(read), consumed) => {
            assert_eq!(consumed, buffer.len());
            assert_eq!(read.len(), 2);
            assert_eq!(read.get(&operation_id(0x44)), Some(&None));
            assert_eq!(read.get(&operation_id(0x55)), Some(&None));
            assert_eq!(read.entries()[0].id, operation_id(0x44));
            assert_eq!(read.entries()[1].id, operation_id(0x55));
        }
        _ => panic!("unexpected message"),
    }
}

#[test]
fn nested_failure_names_the_field() {
    let context = initialize_context();
    // a peer list of one address whose family is neither 4 nor 6
    assert_eq!(
        failure(&[6, 1, 5, 1, 2, 3, 4], &context),
        ProtocolError::NestedCodecError(Field::PeerAddress)
    );
    // endorsements stand in for by addresses here
    assert_eq!(
        failure(&[9, 1, 0], &context),
        ProtocolError::NestedCodecError(Field::Endorsement)
    );
    // a version whose major number does not fit in 32 bits
    let mut buffer: Vec<u8> = vec![0];
    buffer.extend([9u8; 33]);
    buffer.extend([5u8; 32]);
    buffer.extend(*b"TEST");
    buffer.extend([0xffu8, 0xff, 0xff, 0xff, 0x7f, 0]);
    assert_eq!(failure(&buffer, &context), ProtocolError::NestedCodecError(Field::Version));
    // an operation inside the mapping
    let mut buffer: Vec<u8> = vec![8, 1];
    buffer.extend([0x33u8; 32]);
    buffer.extend([0u8, 0, 0, 1]);
    buffer.extend(*b"TEST");
    buffer.extend([0xffu8, 0xff, 0xff, 0xff, 0x7f, 0]);
    assert_eq!(failure(&buffer, &context), ProtocolError::NestedCodecError(Field::Operation));
}

#[test]
fn ask_peer_list_is_one_byte() {
    let context = initialize_context();
    let msg: Msg = Message::AskPeerList;
    assert_eq!(msg.to_bytes_compact().unwrap(), vec![5]);
    match decode(&[5, 9, 9], &context).unwrap() {
        (Message::AskPeerList, 1) => {}
        _ => panic!("unexpected message"),
    }
}

#[test]
fn peer_list_keeps_its_order() {
    let context = initialize_context();
    let peers = vec![IpAddr::V4([3, 3, 3, 3]), IpAddr::V4([1, 1, 1, 1]), IpAddr::V4([2, 2, 2, 2])];
    let msg: Msg = Message::PeerList(peers.clone());
    let ser = msg.to_bytes_compact().unwrap();
    assert_eq!(ser, vec![6, 3, 4, 3, 3, 3, 3, 4, 1, 1, 1, 1, 4, 2, 2, 2, 2]);
    match decode(&ser, &context).unwrap() {
        (Message::PeerList(read), 17) => assert_eq!(read, peers),
        _ => panic!("unexpected message"),
    }
}
