use wire_messages::varint::{
    from_varint_bytes, from_varint_bytes_bounded, to_varint_bytes, VarintError,
};
use wire_messages::ProtocolError;

#[test]
fn varint_small_values_take_one_byte() {
    assert_eq!(to_varint_bytes(0), vec![0]);
    assert_eq!(to_varint_bytes(4), vec![4]);
    assert_eq!(to_varint_bytes(127), vec![127]);
}

#[test]
fn varint_exact_bytes() {
    assert_eq!(to_varint_bytes(128), vec![0x80, 0x01]);
    assert_eq!(to_varint_bytes(300), vec![0xac, 0x02]);
    assert_eq!(to_varint_bytes(16384), vec![0x80, 0x80, 0x01]);
    assert_eq!(to_varint_bytes(u32::MAX), vec![0xff, 0xff, 0xff, 0xff, 0x0f]);
}

#[test]
fn varint_reads_back_with_trailing_bytes() {
    let mut bytes = to_varint_bytes(300);
    bytes.push(0xaa);
    assert_eq!(from_varint_bytes(&bytes), Ok((300, 2)));
    assert_eq!(from_varint_bytes(&[0xff, 0xff, 0xff, 0xff, 0x0f]), Ok((u32::MAX, 5)));
}

#[test]
fn varint_short_buffer_is_truncated() {
    assert_eq!(from_varint_bytes(&[]), Err(VarintError::Truncated));
    assert_eq!(from_varint_bytes(&[0x80]), Err(VarintError::Truncated));
    assert_eq!(from_varint_bytes(&[0xff, 0xff, 0xff, 0xff]), Err(VarintError::Truncated));
}

#[test]
fn varint_above_32_bits_is_too_large() {
    assert_eq!(from_varint_bytes(&[0xff, 0xff, 0xff, 0xff, 0x10]), Err(VarintError::TooLarge));
    assert_eq!(
        from_varint_bytes(&[0x80, 0x80, 0x80, 0x80, 0x80, 0x00]),
        Err(VarintError::TooLarge)
    );
}

#[test]
fn varint_bounded_read() {
    assert_eq!(from_varint_bytes_bounded(&[10], 10), Ok((10, 1)));
    assert_eq!(from_varint_bytes_bounded(&[11], 10), Err(ProtocolError::BoundExceeded));
    assert_eq!(
        from_varint_bytes_bounded(&[0xff, 0xff, 0xff, 0xff, 0x10], u32::MAX),
        Err(ProtocolError::BoundExceeded)
    );
    assert_eq!(from_varint_bytes_bounded(&[0x80], 10), Err(ProtocolError::Truncated));
}

#[test]
fn varint_longer_than_needed_is_still_read() {
    assert_eq!(from_varint_bytes(&[0x84, 0x00]), Ok((4, 2)));
    assert_eq!(from_varint_bytes(&[0x80, 0x80, 0x80, 0x80, 0x00]), Ok((0, 5)));
}

#[test]
fn varint_reads_back_every_length() {
    for value in [0u32, 1, 127, 128, 16383, 16384, 2097151, 2097152, 268435455, 268435456, u32::MAX]
    {
        let bytes = to_varint_bytes(value);
        assert_eq!(from_varint_bytes(&bytes), Ok((value, bytes.len())));
        for cut in 0..bytes.len() {
            assert_eq!(from_varint_bytes(&bytes[..cut]), Err(VarintError::Truncated));
        }
    }
}
