use slasm::word::{to_hex_string, version, DataType, Word, WORD_SIZE};

#[test]
fn hex_rendering_of_123() {
    assert_eq!(Word::from_ui64(123).as_hex(), "0x000000000000007B");
}

#[test]
fn word_size_is_eight() {
    assert_eq!(WORD_SIZE, 8);
}

#[test]
fn version_string() {
    assert_eq!(version(), "1.0.0");
}

#[test]
fn roundtrip_i64() {
    for x in [0i64, 1, -1, 123, -123, i64::MAX, i64::MIN, 0x0123_4567_89AB_CDEF] {
        assert_eq!(Word::from_i64(x).as_i64(), x);
    }
}

#[test]
fn roundtrip_u64() {
    for x in [0u64, 1, 255, u64::MAX, 0x0123_4567_89AB_CDEF] {
        assert_eq!(Word::from_ui64(x).as_ui64(), x);
    }
}

#[test]
fn bytes_are_little_endian() {
    let w = Word::from_ui64(0x0102_0304_0506_0708);
    assert_eq!(w.bytes, [8, 7, 6, 5, 4, 3, 2, 1]);
}

#[test]
fn new_wraps_raw_bytes() {
    let w = Word::new([1, 0, 0, 0, 0, 0, 0, 0]);
    assert_eq!(w.as_ui64(), 1);
    assert_eq!(w.as_i64(), 1);
}

#[test]
fn signed_reinterprets_two_complement() {
    let w = Word::new([0xFF; 8]);
    assert_eq!(w.as_ui64(), u64::MAX);
    assert_eq!(w.as_i64(), -1);
}

#[test]
fn hex_is_msb_first() {
    let w = Word::new([0xEF, 0xCD, 0xAB, 0x89, 0x67, 0x45, 0x23, 0x01]);
    assert_eq!(w.as_hex(), "0x0123456789ABCDEF");
}

#[test]
fn to_hex_string_keeps_byte_order() {
    assert_eq!(to_hex_string(&[0x0F, 0xA0]), "0x0FA0");
    assert_eq!(to_hex_string(&[]), "0x");
}

#[test]
fn data_type_mnemonics() {
    assert_eq!(DataType::I8.as_str(), "I8");
    assert_eq!(DataType::UI8.as_str(), "UI8");
    assert_eq!(DataType::I16.as_str(), "I16");
    assert_eq!(DataType::UI16.as_str(), "UI16");
    assert_eq!(DataType::I32.as_str(), "I32");
    assert_eq!(DataType::UI32.as_str(), "UI32");
    assert_eq!(DataType::I64.as_str(), "I64");
    assert_eq!(DataType::UI64.as_str(), "UI64");
    assert_eq!(DataType::F32.as_str(), "F32");
    assert_eq!(DataType::F64.as_str(), "F64");
}
