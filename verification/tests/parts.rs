use wire_messages::compact::{DeserializeCompact, SerializeCompact};
use wire_messages::error::wrap_nested_failure;
use wire_messages::fixed::{array_eq, array_from_slice, array_to_vec, OperationId};
use wire_messages::ip::IpAddr;
use wire_messages::messages::{deserialize_nested, read_array, serialize_nested};
use wire_messages::operations::{
    derialize_operation_opt_map, deserialize_operation_ids, serialize_operation_ids,
    serialize_operation_opt_map, OperationEntry, OperationMap,
};
use wire_messages::registry::MessageTypeId;
use wire_messages::sequence::{deserialize_items, serialize_items};
use wire_messages::version::{Version, VersionError};
use wire_messages::{Field, ProtocolError, SerializationContext};

fn context() -> SerializationContext {
    SerializationContext {
        max_operations_per_block: 1024,
        thread_count: 2,
        max_advertise_length: 128,
        max_message_size: 3 * 1024 * 1024,
        max_block_size: 3 * 1024 * 1024,
        max_bootstrap_blocks: 100,
        max_bootstrap_cliques: 100,
        max_bootstrap_deps: 100,
        max_bootstrap_children: 100,
        max_ask_blocks_per_message: 10,
        max_operations_per_message: 1024,
        max_endorsements_per_message: 1024,
        max_bootstrap_message_size: 100000000,
        max_bootstrap_pos_entries: 1000,
        max_bootstrap_pos_cycles: 5,
        endorsement_count: 8,
    }
}

fn operation_id(fill: u8) -> OperationId {
    OperationId::from_bytes(&[fill; 32])
}

#[test]
fn registry_numbers_are_stable() {
    let table = [
        (MessageTypeId::HandshakeInitiation, 0u32),
        (MessageTypeId::HandshakeReply, 1),
        (MessageTypeId::Block, 2),
        (MessageTypeId::BlockHeader, 3),
        (MessageTypeId::AskForBlocks, 4),
        (MessageTypeId::AskPeerList, 5),
        (MessageTypeId::PeerList, 6),
        (MessageTypeId::BlockNotFound, 7),
        (MessageTypeId::Operations, 8),
        (MessageTypeId::Endorsements, 9),
        (MessageTypeId::AskForOperation, 10),
        (MessageTypeId::OperationsBatch, 11),
    ];
    for (id, value) in table {
        assert_eq!(id.to_u32(), value);
        assert_eq!(MessageTypeId::try_from_u32(value), Ok(id));
    }
}

#[test]
fn registry_refuses_other_numbers() {
    for value in [12u32, 13, 255, 256, u32::MAX] {
        assert_eq!(MessageTypeId::try_from_u32(value), Err(ProtocolError::UnknownMessageType));
    }
}

#[test]
fn nested_failure_keeps_a_short_buffer() {
    assert_eq!(
        wrap_nested_failure(ProtocolError::Truncated, Field::Block),
        ProtocolError::Truncated
    );
    for e in [
        ProtocolError::UnknownMessageType,
        ProtocolError::BoundExceeded,
        ProtocolError::LengthOverflow,
        ProtocolError::NestedCodecError(Field::Signature),
    ] {
        assert_eq!(
            wrap_nested_failure(e, Field::Block),
            ProtocolError::NestedCodecError(Field::Block)
        );
    }
}

#[test]
fn arrays_from_slices() {
    assert_eq!(array_from_slice::<4>(&[1, 2, 3, 4, 5]), Ok([1, 2, 3, 4]));
    assert_eq!(array_from_slice::<4>(&[1, 2, 3, 4]), Ok([1, 2, 3, 4]));
    assert_eq!(array_from_slice::<4>(&[1, 2, 3]), Err(ProtocolError::Truncated));
    assert_eq!(array_from_slice::<0>(&[]), Ok([]));
    assert_eq!(array_to_vec(&[7u8, 8, 9]), vec![7, 8, 9]);
    assert!(array_eq(&[1u8, 2, 3], &[1, 2, 3]));
    assert!(!array_eq(&[1u8, 2, 3], &[1, 2, 4]));
    assert!(!array_eq(&[0u8, 2, 3], &[1, 2, 3]));
}

#[test]
fn read_array_moves_the_cursor() {
    let buffer = [1u8, 2, 3, 4, 5];
    let mut cursor = 1;
    assert_eq!(read_array::<2>(&buffer, &mut cursor), Ok([2, 3]));
    assert_eq!(cursor, 3);
    assert_eq!(read_array::<3>(&buffer, &mut cursor), Err(ProtocolError::Truncated));
    assert_eq!(cursor, 3);
    let mut past = 9;
    assert_eq!(read_array::<1>(&buffer, &mut past), Err(ProtocolError::Truncated));
    assert_eq!(past, 9);
}

#[test]
fn version_text() {
    assert_eq!(
        Version::from_str("TEST.1.2"),
        Ok(Version { instance: *b"TEST", major: 1, minor: 2 })
    );
    assert_eq!(
        Version::from_str("MAIN.0.4294967295"),
        Ok(Version { instance: *b"MAIN", major: 0, minor: u32::MAX })
    );
    assert_eq!(
        Version::from_str("AB12.007.10"),
        Ok(Version { instance: *b"AB12", major: 7, minor: 10 })
    );
}

#[test]
fn version_text_refused() {
    for text in [
        "",
        "TEST",
        "TEST.",
        "TEST.1",
        "TEST.1.",
        "TEST..2",
        "TEST.1.2.3",
        "TES.1.2",
        "TESTS.1.2",
        "T.ST.1.2",
        "TEST.1.4294967296",
        "TEST.99999999999999999999.1",
        "TEST.+1.2",
        "TEST.1.2 ",
        "TEST.a.2",
    ] {
        assert_eq!(Version::from_str(text), Err(VersionError::InvalidFormat), "{}", text);
    }
}

#[test]
fn version_bytes() {
    let context = context();
    let version = Version { instance: *b"TEST", major: 300, minor: 0 };
    let bytes = version.to_bytes_compact().unwrap();
    assert_eq!(bytes, vec![b'T', b'E', b'S', b'T', 0xac, 0x02, 0]);
    assert_eq!(Version::from_bytes_compact(&bytes, &context), Ok((version, 7)));
    assert_eq!(Version::from_bytes_compact(&bytes[..6], &context), Err(ProtocolError::Truncated));
    assert_eq!(Version::from_bytes_compact(&bytes[..3], &context), Err(ProtocolError::Truncated));
}

#[test]
fn peer_address_bytes() {
    let context = context();
    let v4 = IpAddr::V4([192, 168, 0, 1]);
    assert_eq!(v4.to_bytes_compact().unwrap(), vec![4, 192, 168, 0, 1]);
    assert_eq!(IpAddr::from_bytes_compact(&[4, 192, 168, 0, 1, 77], &context), Ok((v4, 5)));
    let v6 = IpAddr::V6([0xab; 16]);
    let mut bytes = vec![6u8];
    bytes.extend([0xabu8; 16]);
    assert_eq!(v6.to_bytes_compact().unwrap(), bytes);
    assert_eq!(IpAddr::from_bytes_compact(&bytes, &context), Ok((v6, 17)));
    assert_eq!(IpAddr::from_bytes_compact(&bytes[..16], &context), Err(ProtocolError::Truncated));
    assert_eq!(IpAddr::from_bytes_compact(&[], &context), Err(ProtocolError::Truncated));
    assert_eq!(
        IpAddr::from_bytes_compact(&[5, 1, 2, 3, 4], &context),
        Err(ProtocolError::NestedCodecError(Field::PeerAddress))
    );
}

#[test]
fn operation_ids_with_a_cursor() {
    let ids = vec![operation_id(1), operation_id(2)];
    let mut buffer: Vec<u8> = vec![0xee, 0xee, 0xee];
    assert_eq!(serialize_operation_ids(&mut buffer, &ids), Ok(()));
    assert_eq!(buffer.len(), 3 + 1 + 64);
    assert_eq!(&buffer[..4], &[0xee, 0xee, 0xee, 2]);
    buffer.push(0x99);

    let mut cursor = 3;
    assert_eq!(deserialize_operation_ids(&buffer, &mut cursor, 2), Ok(ids));
    assert_eq!(cursor, 68);

    let mut cursor = 3;
    assert_eq!(
        deserialize_operation_ids(&buffer, &mut cursor, 1),
        Err(ProtocolError::BoundExceeded)
    );
    assert_eq!(cursor, 3);

    let mut cursor = 3;
    assert_eq!(
        deserialize_operation_ids(&buffer[..60], &mut cursor, 2),
        Err(ProtocolError::Truncated)
    );
    assert_eq!(cursor, 3);

    let mut cursor = buffer.len();
    assert_eq!(
        deserialize_operation_ids(&buffer, &mut cursor, 2),
        Err(ProtocolError::Truncated)
    );
    let mut cursor = buffer.len() + 10;
    assert_eq!(
        deserialize_operation_ids(&buffer, &mut cursor, 2),
        Err(ProtocolError::Truncated)
    );
    assert_eq!(cursor, buffer.len() + 10);
}

#[test]
fn operation_map_with_a_cursor() {
    let context = context();
    let op = Version { instance: *b"TEST", major: 5, minor: 6 };
    let mut operations: OperationMap<Version> = OperationMap::new();
    operations.insert(operation_id(1), Some(op));
    operations.insert(operation_id(2), None);

    let mut buffer: Vec<u8> = vec![0xee];
    assert_eq!(serialize_operation_opt_map(&mut buffer, &operations), Ok(()));
    assert_eq!(buffer.len(), 1 + 1 + (32 + 4 + 6) + (32 + 4));
    assert_eq!(buffer[1], 2);
    assert_eq!(&buffer[34..38], &[0, 0, 0, 1]);
    assert_eq!(&buffer[76..80], &[0, 0, 0, 0]);

    let mut cursor = 1;
    let read: OperationMap<Version> =
        derialize_operation_opt_map(&buffer, &mut cursor, 2, &context).unwrap();
    assert_eq!(cursor, buffer.len());
    assert_eq!(read.len(), 2);
    assert_eq!(read.get(&operation_id(1)), Some(&Some(op)));
    assert_eq!(read.get(&operation_id(2)), Some(&None));

    let mut cursor = 1;
    let refused: Result<OperationMap<Version>, ProtocolError> =
        derialize_operation_opt_map(&buffer, &mut cursor, 1, &context);
    assert_eq!(refused.unwrap_err(), ProtocolError::BoundExceeded);
    assert_eq!(cursor, 1);

    let mut cursor = 1;
    let short: Result<OperationMap<Version>, ProtocolError> =
        derialize_operation_opt_map(&buffer[..70], &mut cursor, 2, &context);
    assert_eq!(short.unwrap_err(), ProtocolError::Truncated);
    assert_eq!(cursor, 1);
}

#[test]
fn operation_map_insert_replaces_in_place() {
    let a = Version { instance: *b"AAAA", major: 1, minor: 1 };
    let b = Version { instance: *b"BBBB", major: 2, minor: 2 };
    let mut operations: OperationMap<Version> = OperationMap::new();
    assert_eq!(operations.len(), 0);
    assert_eq!(operations.position(&operation_id(1)), None);
    operations.insert(operation_id(1), Some(a));
    operations.insert(operation_id(2), None);
    operations.insert(operation_id(1), Some(b));
    assert_eq!(operations.len(), 2);
    assert_eq!(operations.position(&operation_id(1)), Some(0));
    assert_eq!(operations.position(&operation_id(2)), Some(1));
    assert_eq!(operations.get(&operation_id(1)), Some(&Some(b)));
    operations.insert(operation_id(2), Some(a));
    assert_eq!(operations.get(&operation_id(2)), Some(&Some(a)));
    assert_eq!(operations.entries().len(), 2);
}

#[test]
fn operation_entry_bytes() {
    let context = context();
    let absent: OperationEntry<Version> = OperationEntry { id: operation_id(7), operation: None };
    let mut expected = vec![7u8; 32];
    expected.extend([0u8, 0, 0, 0]);
    assert_eq!(absent.to_bytes_compact().unwrap(), expected);
    let (read, consumed) =
        OperationEntry::<Version>::from_bytes_compact(&expected, &context).unwrap();
    assert_eq!(consumed, 36);
    assert_eq!(read.id, operation_id(7));
    assert_eq!(read.operation, None);
    let short = OperationEntry::<Version>::from_bytes_compact(&expected[..35], &context);
    assert_eq!(short.unwrap_err(), ProtocolError::Truncated);

    // the tag is read as four bytes, the most significant first
    let mut tagged = vec![7u8; 32];
    tagged.extend([0u8, 1, 0, 0]);
    tagged.extend(*b"TEST");
    tagged.extend([1u8, 2]);
    let (read, consumed) =
        OperationEntry::<Version>::from_bytes_compact(&tagged, &context).unwrap();
    assert_eq!(consumed, 42);
    assert_eq!(read.operation, Some(Version { instance: *b"TEST", major: 1, minor: 2 }));
}

#[test]
fn items_with_a_cursor() {
    let context = context();
    let peers = vec![IpAddr::V4([1, 2, 3, 4]), IpAddr::V6([9; 16])];
    let mut buffer: Vec<u8> = Vec::new();
    assert_eq!(serialize_items(&mut buffer, &peers, Field::PeerAddress), Ok(()));
    assert_eq!(buffer.len(), 1 + 5 + 17);
    let mut cursor = 0;
    assert_eq!(
        deserialize_items::<IpAddr>(&buffer, &mut cursor, 2, Field::PeerAddress, &context),
        Ok(peers)
    );
    assert_eq!(cursor, 23);

    buffer[1] = 9;
    let mut cursor = 0;
    assert_eq!(
        deserialize_items::<IpAddr>(&buffer, &mut cursor, 2, Field::PeerAddress, &context),
        Err(ProtocolError::NestedCodecError(Field::PeerAddress))
    );
    assert_eq!(cursor, 0);
}

#[test]
fn nested_value_with_a_cursor() {
    let context = context();
    let version = Version { instance: *b"TEST", major: 1, minor: 2 };
    let mut buffer: Vec<u8> = vec![0xaa];
    assert_eq!(serialize_nested(&mut buffer, &version, Field::Version), Ok(()));
    assert_eq!(buffer, vec![0xaa, b'T', b'E', b'S', b'T', 1, 2]);
    let mut cursor = 1;
    assert_eq!(
        deserialize_nested::<Version>(&buffer, &mut cursor, Field::Version, &context),
        Ok(version)
    );
    assert_eq!(cursor, 7);
    assert_eq!(
        deserialize_nested::<Version>(&buffer, &mut cursor, Field::Version, &context),
        Err(ProtocolError::Truncated)
    );
    assert_eq!(cursor, 7);
    let bad = [4u8, 4, 4, 4, 0xff, 0xff, 0xff, 0xff, 0x10];
    let mut cursor = 0;
    assert_eq!(
        deserialize_nested::<Version>(&bad, &mut cursor, Field::Version, &context),
        Err(ProtocolError::NestedCodecError(Field::Version))
    );
    assert_eq!(cursor, 0);
}
