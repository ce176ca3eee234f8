use proteus_vm::errors::VmError;
use proteus_vm::utils::decode_signed;
use proteus_vm::utils::decode_string;
use proteus_vm::utils::decode_unsigned;
use proteus_vm::utils::encode_signed;
use proteus_vm::utils::encode_string;
use proteus_vm::utils::encode_unsigned;
use proteus_vm::utils::str_eq;
use proteus_vm::utils::to_decimal_string;

#[test]
fn encode_unsigned_is_big_endian() {
    assert_eq!(encode_unsigned(0xDEADBEEF), [0xDE, 0xAD, 0xBE, 0xEF]);
    assert_eq!(encode_unsigned(0), [0, 0, 0, 0]);
    assert_eq!(encode_unsigned(1), [0, 0, 0, 1]);
    assert_eq!(encode_unsigned(u32::MAX), [0xFF, 0xFF, 0xFF, 0xFF]);
}

#[test]
fn encode_signed_is_twos_complement() {
    assert_eq!(encode_signed(1), [0, 0, 0, 1]);
    assert_eq!(encode_signed(-1), [0xFF, 0xFF, 0xFF, 0xFF]);
    assert_eq!(encode_signed(-2), [0xFF, 0xFF, 0xFF, 0xFE]);
    assert_eq!(encode_signed(i32::MIN), [0x80, 0, 0, 0]);
    assert_eq!(encode_signed(i32::MAX), [0x7F, 0xFF, 0xFF, 0xFF]);
}

#[test]
fn decode_unsigned_reads_at_offset() {
    let bytes = [0u8, 0, 0, 7, 0xDE, 0xAD, 0xBE, 0xEF];
    assert_eq!(decode_unsigned(0, &bytes), Ok(7));
    assert_eq!(decode_unsigned(4, &bytes), Ok(0xDEADBEEF));
}

#[test]
fn decode_unsigned_truncation() {
    let bytes = [1u8, 2, 3];
    assert_eq!(decode_unsigned(0, &bytes), Err(VmError::Truncation));
    let bytes = [1u8, 2, 3, 4, 5];
    assert_eq!(decode_unsigned(2, &bytes), Err(VmError::Truncation));
}

#[test]
fn decode_signed_round_trip() {
    for v in [0i32, 1, -1, 42, -559038737, i32::MIN, i32::MAX] {
        let bytes = encode_signed(v);
        assert_eq!(decode_signed(0, &bytes), Ok(v));
    }
}

#[test]
fn decode_unsigned_round_trip() {
    for v in [0u32, 1, 0xDEADBEEF, u32::MAX, 0x8000_0000] {
        let bytes = encode_unsigned(v);
        assert_eq!(decode_unsigned(0, &bytes), Ok(v));
    }
}

#[test]
fn encode_string_appends_nothing() {
    assert_eq!(encode_string("hi"), vec![b'h', b'i']);
    assert_eq!(encode_string(""), Vec::<u8>::new());
}

#[test]
fn decode_string_stops_at_nul() {
    let bytes = [b'h', b'i', 0, b'x'];
    assert_eq!(decode_string(0, &bytes), "hi".to_string());
    assert_eq!(decode_string(1, &bytes), "i".to_string());
    assert_eq!(decode_string(2, &bytes), "".to_string());
}

#[test]
fn decimal_formatting() {
    assert_eq!(to_decimal_string(0), "0");
    assert_eq!(to_decimal_string(42), "42");
    assert_eq!(to_decimal_string(-123), "-123");
    assert_eq!(to_decimal_string(i32::MAX), "2147483647");
    assert_eq!(to_decimal_string(i32::MIN), "-2147483648");
}

#[test]
fn string_equality_by_bytes() {
    assert!(str_eq("println", "println"));
    assert!(!str_eq("println", "printl"));
    assert!(!str_eq("", "a"));
    assert!(str_eq("", ""));
}
