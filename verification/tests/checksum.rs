use romhack::checksum::{crc32, crc32_hex};

#[test]
fn crc32_check_value() {
    assert_eq!(crc32(b"123456789"), 0xCBF4_3926);
}

#[test]
fn crc32_of_nothing_is_zero() {
    assert_eq!(crc32(b""), 0);
    assert_eq!(crc32_hex(b""), "00000000");
}

#[test]
fn crc32_hex_is_eight_lower_case_digits() {
    assert_eq!(crc32_hex(b"123456789"), "cbf43926");
    // 0x0d4a1185: a leading zero must be kept.
    assert_eq!(crc32_hex(b"hello world"), "0d4a1185");
}
