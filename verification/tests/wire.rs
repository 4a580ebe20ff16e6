use transit_feed::wire::{
    read_field, read_key, read_le32, read_value, read_varint, DecodeError, Field, Key, WireKind,
    WireValue,
};

#[test]
fn varint_of_one_byte() {
    let buf = [0x07u8, 0xaa];
    let (value, rest) = read_varint(&buf).unwrap();
    assert_eq!(value, 7);
    assert_eq!(rest, &[0xaau8][..]);
}

#[test]
fn varint_of_two_bytes() {
    let buf = [0xacu8, 0x02];
    let (value, rest) = read_varint(&buf).unwrap();
    assert_eq!(value, 300);
    assert!(rest.is_empty());
}

#[test]
fn varint_largest_value() {
    let buf = [0xffu8, 0xff, 0xff, 0xff, 0xff, 0xff, 0xff, 0xff, 0xff, 0x01, 0x55];
    let (value, rest) = read_varint(&buf).unwrap();
    assert_eq!(value, u64::MAX);
    assert_eq!(rest, &[0x55u8][..]);
}

#[test]
fn varint_over_64_bits_is_refused() {
    let buf = [0xffu8, 0xff, 0xff, 0xff, 0xff, 0xff, 0xff, 0xff, 0xff, 0x02];
    assert_eq!(read_varint(&buf), Err(DecodeError::Varint));
}

#[test]
fn varint_of_eleven_bytes_is_refused() {
    let buf = [0x80u8, 0x80, 0x80, 0x80, 0x80, 0x80, 0x80, 0x80, 0x80, 0x80, 0x00];
    assert_eq!(read_varint(&buf), Err(DecodeError::Varint));
}

#[test]
fn varint_that_ends_early_is_refused() {
    assert_eq!(read_varint(&[]), Err(DecodeError::Varint));
    assert_eq!(read_varint(&[0x80]), Err(DecodeError::Varint));
    assert_eq!(read_varint(&[0xff, 0xff]), Err(DecodeError::Varint));
}

#[test]
fn varint_with_padding_is_read() {
    let buf = [0x81u8, 0x80, 0x00, 0x09];
    let (value, rest) = read_varint(&buf).unwrap();
    assert_eq!(value, 1);
    assert_eq!(rest, &[0x09u8][..]);
}

#[test]
fn varint_written_by_prost_is_read() {
    for value in [0u64, 1, 127, 128, 16_383, 16_384, 1 << 32, u64::MAX - 1, u64::MAX] {
        let mut buf: Vec<u8> = Vec::new();
        prost::encoding::encode_varint(value, &mut buf);
        buf.push(0x33);
        let (read, rest) = read_varint(&buf).unwrap();
        assert_eq!(read, value);
        assert_eq!(rest, &[0x33u8][..]);
    }
}

#[test]
fn key_of_each_wire_type() {
    assert_eq!(
        read_key(&[0x08]).unwrap().0,
        Key { number: 1, kind: WireKind::Varint }
    );
    assert_eq!(
        read_key(&[0x21]).unwrap().0,
        Key { number: 4, kind: WireKind::Fixed64 }
    );
    assert_eq!(
        read_key(&[0x12]).unwrap().0,
        Key { number: 2, kind: WireKind::Bytes }
    );
    assert_eq!(
        read_key(&[0x2d]).unwrap().0,
        Key { number: 5, kind: WireKind::Fixed32 }
    );
}

#[test]
fn key_of_large_field_number() {
    // field 536870911, the largest, with wire type 2
    let buf = [0xfau8, 0xff, 0xff, 0xff, 0x0f];
    let (key, rest) = read_key(&buf).unwrap();
    assert_eq!(key, Key { number: 536_870_911, kind: WireKind::Bytes });
    assert!(rest.is_empty());
}

#[test]
fn key_errors() {
    assert_eq!(read_key(&[]), Err(DecodeError::Key));
    assert_eq!(read_key(&[0x80]), Err(DecodeError::Key));
    // field number 0
    assert_eq!(read_key(&[0x02]), Err(DecodeError::Key));
    // wire types 6 and 7
    assert_eq!(read_key(&[0x0e]), Err(DecodeError::Key));
    assert_eq!(read_key(&[0x0f]), Err(DecodeError::Key));
    // 2^32 + 8: over 32 bits
    assert_eq!(read_key(&[0x88, 0x80, 0x80, 0x80, 0x10]), Err(DecodeError::Key));
}

#[test]
fn key_of_a_group_is_refused() {
    assert_eq!(read_key(&[0x0b]), Err(DecodeError::Group));
    assert_eq!(read_key(&[0x0c]), Err(DecodeError::Group));
}

#[test]
fn four_bytes_lowest_first() {
    assert_eq!(read_le32(&[0x78, 0x56, 0x34, 0x12]), 0x1234_5678);
    assert_eq!(read_le32(&[0xff, 0xff, 0xff, 0xff, 0x00]), u32::MAX);
    assert_eq!(read_le32(&[0, 0, 0, 0]), 0);
}

#[test]
fn value_of_each_wire_type() {
    let (value, rest) = read_value(WireKind::Varint, &[0x96, 0x01, 0x01]).unwrap();
    assert_eq!(value, WireValue::Varint(150));
    assert_eq!(rest, &[0x01u8][..]);

    let (value, rest) = read_value(WireKind::Fixed32, &[0x00, 0x00, 0xb4, 0x41, 0x02]).unwrap();
    assert_eq!(value, WireValue::Fixed32(0x41b4_0000));
    assert_eq!(rest, &[0x02u8][..]);

    let (value, rest) =
        read_value(WireKind::Fixed64, &[0x08, 0x07, 0x06, 0x05, 0x04, 0x03, 0x02, 0x01]).unwrap();
    assert_eq!(value, WireValue::Fixed64(0x0102_0304_0506_0708));
    assert!(rest.is_empty());

    let (value, rest) = read_value(WireKind::Bytes, &[0x03, 0x61, 0x62, 0x63, 0x64]).unwrap();
    assert_eq!(value, WireValue::Bytes(&[0x61, 0x62, 0x63]));
    assert_eq!(rest, &[0x64u8][..]);

    let (value, rest) = read_value(WireKind::Bytes, &[0x00]).unwrap();
    assert_eq!(value, WireValue::Bytes(&[]));
    assert!(rest.is_empty());
}

#[test]
fn value_errors() {
    assert_eq!(read_value(WireKind::Varint, &[0x80]), Err(DecodeError::Varint));
    assert_eq!(read_value(WireKind::Bytes, &[]), Err(DecodeError::Varint));
    assert_eq!(read_value(WireKind::Bytes, &[0x02, 0x61]), Err(DecodeError::Truncated));
    assert_eq!(read_value(WireKind::Fixed32, &[1, 2, 3]), Err(DecodeError::Truncated));
    assert_eq!(read_value(WireKind::Fixed64, &[1, 2, 3, 4, 5, 6, 7]), Err(DecodeError::Truncated));
}

#[test]
fn length_over_the_buffer_is_refused() {
    // declared length u64::MAX
    let buf = [0xffu8, 0xff, 0xff, 0xff, 0xff, 0xff, 0xff, 0xff, 0xff, 0x01, 0x00];
    assert_eq!(read_value(WireKind::Bytes, &buf), Err(DecodeError::Truncated));
}

#[test]
fn field_with_key_and_value() {
    let buf = [0x2au8, 0x03, 0x36, 0x30, 0x31, 0x08, 0x01];
    let (field, rest) = read_field(&buf).unwrap();
    assert_eq!(field, Field { number: 5, value: WireValue::Bytes(b"601") });
    assert_eq!(rest, &[0x08u8, 0x01][..]);
    let (field, rest) = read_field(rest).unwrap();
    assert_eq!(field, Field { number: 1, value: WireValue::Varint(1) });
    assert!(rest.is_empty());
}

#[test]
fn field_errors() {
    assert_eq!(read_field(&[]), Err(DecodeError::Key));
    assert_eq!(read_field(&[0x0b, 0x0c]), Err(DecodeError::Group));
    assert_eq!(read_field(&[0x08]), Err(DecodeError::Varint));
    assert_eq!(read_field(&[0x0d, 0x00]), Err(DecodeError::Truncated));
}
