use rock::errors::{ErrorKind, RockError};
use rock::profile::buffer::{
    decode_field, decode_fixed32, decode_fixed64, decode_string, decode_varint, Buffer, WireTypes,
};

#[test]
fn varint_single_byte() {
    let mut data = vec![0x05u8, 0xff];
    assert_eq!(decode_varint(&mut data), Ok(5));
    assert_eq!(data, vec![0xffu8]);
}

#[test]
fn varint_two_bytes() {
    // 0xd6 0x76 is 86 + (118 << 7) = 15190
    let mut data = vec![0xd6u8, 0x76];
    assert_eq!(decode_varint(&mut data), Ok(15190));
    assert!(data.is_empty());
}

#[test]
fn varint_ten_bytes_is_minus_one() {
    let mut data = vec![0xffu8, 0xff, 0xff, 0xff, 0xff, 0xff, 0xff, 0xff, 0xff, 0x01];
    assert_eq!(decode_varint(&mut data), Ok(u64::MAX));
}

#[test]
fn varint_overrun_is_bad_varint() {
    let mut data = vec![0x80u8; 11];
    let err = decode_varint(&mut data).unwrap_err();
    assert_eq!(err.kind(), ErrorKind::DecodeFieldFailed);
    assert_eq!(err.reason(), "bad varint");
    assert_eq!(data.len(), 11);
}

#[test]
fn varint_truncated_is_bad_varint() {
    let mut data = vec![0x80u8];
    assert_eq!(
        decode_varint(&mut data),
        Err(RockError::DecodeFieldFailed { reason: String::from("bad varint") })
    );
    let mut empty: Vec<u8> = vec![];
    assert!(decode_varint(&mut empty).is_err());
}

#[test]
fn fixed_width_is_little_endian() {
    assert_eq!(decode_fixed64(&[1, 2, 3, 4, 5, 6, 7, 8]), 0x0807060504030201);
    assert_eq!(decode_fixed32(&[0x78, 0x56, 0x34, 0x12]), 0x12345678);
}

#[test]
fn field_varint() {
    // field 1, wire type 0, value 150
    let mut data = vec![0x08u8, 0x96, 0x01, 0x07];
    let mut buf = Buffer::new();
    decode_field(&mut buf, &mut data).unwrap();
    assert_eq!(buf.field, 1);
    assert_eq!(buf.ty, WireTypes::WireVarint);
    assert_eq!(buf.value, 150);
    assert!(buf.data.is_empty());
    assert_eq!(data, vec![0x07u8]);
}

#[test]
fn field_bytes() {
    // field 2, wire type 2, length 3
    let mut data = vec![0x12u8, 0x03, b'a', b'b', b'c', 0x00];
    let mut buf = Buffer::new();
    decode_field(&mut buf, &mut data).unwrap();
    assert_eq!(buf.field, 2);
    assert_eq!(buf.ty, WireTypes::WireBytes);
    assert_eq!(buf.value, 0);
    assert_eq!(buf.data, b"abc".to_vec());
    assert_eq!(data, vec![0x00u8]);
}

#[test]
fn field_fixed() {
    let mut data = vec![0x09u8, 1, 0, 0, 0, 0, 0, 0, 0];
    let mut buf = Buffer::new();
    decode_field(&mut buf, &mut data).unwrap();
    assert_eq!((buf.field, buf.ty, buf.value), (1, WireTypes::WireFixed64, 1));
    let mut data = vec![0x0du8, 2, 0, 0, 0];
    decode_field(&mut buf, &mut data).unwrap();
    assert_eq!((buf.field, buf.ty, buf.value), (1, WireTypes::WireFixed32, 2));
}

#[test]
fn field_failures() {
    let mut buf = Buffer::new();
    // length exceeds what is left
    let mut data = vec![0x12u8, 0x05, b'a'];
    let err = decode_field(&mut buf, &mut data).unwrap_err();
    assert_eq!(err.kind(), ErrorKind::DecodeFieldFailed);
    assert_eq!(err.reason(), "too much data");
    assert_eq!(data.len(), 3);
    // truncated fixed64
    let mut data = vec![0x09u8, 1, 2, 3];
    assert_eq!(decode_field(&mut buf, &mut data).unwrap_err().kind(), ErrorKind::DecodeFieldFailed);
    // wire type 3 is not known
    let mut data = vec![0x0bu8, 0x00];
    assert_eq!(decode_field(&mut buf, &mut data).unwrap_err().reason(), "unknown wire type");
    assert_eq!(buf, Buffer::new());
}

#[test]
fn wire_type_codes() {
    assert_eq!(WireTypes::from_code(0), Some(WireTypes::WireVarint));
    assert_eq!(WireTypes::from_code(1), Some(WireTypes::WireFixed64));
    assert_eq!(WireTypes::from_code(2), Some(WireTypes::WireBytes));
    assert_eq!(WireTypes::from_code(5), Some(WireTypes::WireFixed32));
    assert_eq!(WireTypes::from_code(3), None);
    assert_eq!(WireTypes::WireFixed32.code(), 5);
}

#[test]
fn string_is_utf8() {
    assert_eq!(decode_string("héllo".as_bytes()).unwrap(), "héllo");
    let err = decode_string(&[0xff, 0xfe]).unwrap_err();
    assert_eq!(err.kind(), ErrorKind::DecodeFieldFailed);
}

#[test]
fn error_message() {
    let e = RockError::new(ErrorKind::ValidationFailed, "x");
    assert_eq!(e.message(), "Profile validation failed, reason: x");
    assert_eq!(e.kind(), ErrorKind::ValidationFailed);
    let e = RockError::Unknown { reason: String::from("y") };
    assert_eq!(e.message(), "Unknown error, reason: y");
    let e = RockError::ProfileUncompressFailed { reason: String::from("z") };
    assert_eq!(e.message(), "Failed to read compressed data. Error: z");
    let e = RockError::IoError { reason: String::from("no such file") };
    assert_eq!(e.kind(), ErrorKind::IoError);
    assert_eq!(e.message(), "Failed to read input, reason: no such file");
    let e = RockError::new(ErrorKind::DecodeFieldFailed, "bad varint");
    assert_eq!(e.message(), "Failed to decode field, reason: bad varint");
    assert_eq!(e.reason(), "bad varint");
}
