use rustylifx::convert::{
    array_segment_to_string, as_ascii, as_base10, as_boolean, as_hex, bitstr_to_u16,
    bitstr_to_u32, bitstr_to_u8, decimal,
};
use rustylifx::response::{extract, extract_string, ResponseData, ResponseMessage};

#[test]
fn lib_test_extract() {
    let resp = ResponseMessage(vec![41, 42, 43, 44, 45, 46, 47, 48, 49]);
    assert_eq!(extract_string(&resp, 2, 3), vec![43, 44, 45]);
}

#[test]
fn lib_test_as_base10() {
    assert_eq!(as_base10(vec![00, 41]), "41");
}

#[test]
fn lib_test_as_boolean() {
    assert_eq!(as_boolean(vec![221, 124]), "1101110101111100");
}

#[test]
fn lib_test_bitstr_to_u32() {
    assert_eq!(bitstr_to_u32("1101110101111100"), 56700);
}

#[test]
fn lib_test_as_ascii() {
    assert_eq!(as_ascii(vec![76, 73, 70, 88, 86, 50]), "LIFXV2");
}

#[test]
fn lib_test_from_hex() {
    assert_eq!(as_hex(vec![209, 114, 214, 20, 224, 14, 0, 0]), "D1:72:D6:14:E0:0E:00:00");
}

#[test]
fn response_test_extract() {
    let resp = ResponseData(vec![41, 42, 43, 44, 45, 46, 47, 48, 49]);
    assert_eq!(extract(&resp, 2, 3), vec![43, 44, 45]);
}

#[test]
fn response_test_as_base10() {
    assert_eq!(rustylifx::response::as_base10(vec![00, 41]), 41);
}

#[test]
fn response_test_as_boolean() {
    assert_eq!(as_boolean(vec![221, 124]), "1101110101111100");
}

#[test]
fn response_test_bitstr_to_u32() {
    assert_eq!(bitstr_to_u32("1101110101111100"), 56700);
}

#[test]
fn response_test_as_ascii() {
    assert_eq!(as_ascii(vec![76, 73, 70, 88, 86, 50]), "LIFXV2");
}

#[test]
fn response_test_from_hex() {
    assert_eq!(as_hex(vec![209, 114, 214, 20, 224, 14, 0, 0]), "D1:72:D6:14:E0:0E:00:00");
}

#[test]
fn base10_reads_bytes_big_endian() {
    assert_eq!(as_base10(vec![1, 44]), "300");
    assert_eq!(as_base10(vec![255, 255]), "65535");
    assert_eq!(as_base10(vec![7]), "7");
    assert_eq!(as_base10(vec![]), "0");
    assert_eq!(rustylifx::response::as_base10(vec![1, 44]), 300);
}

#[test]
fn decimal_text_has_no_leading_zeros() {
    assert_eq!(decimal(0), "0");
    assert_eq!(decimal(10), "10");
    assert_eq!(decimal(18446744073709551615), "18446744073709551615");
}

#[test]
fn binary_and_bit_text() {
    assert_eq!(as_boolean(vec![]), "");
    assert_eq!(as_boolean(vec![1]), "00000001");
    assert_eq!(bitstr_to_u8("11111111"), 255);
    assert_eq!(bitstr_to_u8(""), 0);
    assert_eq!(bitstr_to_u16("1000000000000001"), 32769);
    // Any character but '0' counts as a one.
    assert_eq!(bitstr_to_u8("1x0"), 6);
}

#[test]
fn hex_text_edges() {
    assert_eq!(as_hex(vec![]), "");
    assert_eq!(as_hex(vec![10]), "0A");
    assert_eq!(as_hex(vec![0xAB, 0xCD]), "AB:CD");
}

#[test]
fn text_of_bytes() {
    // Invalid UTF-8 is replaced, not a failure.
    assert_eq!(as_ascii(vec![0x41, 0xFF, 0x42]), "A\u{FFFD}B");
    assert_eq!(as_ascii(vec![0xC3, 0xA9]), "\u{e9}");
    let bytes = [72u8, 101, 108, 108, 111];
    assert_eq!(array_segment_to_string(&bytes, 1, 4, false), "ell");
    assert_eq!(array_segment_to_string(&bytes, 1, 4, true), "lle");
    assert_eq!(array_segment_to_string(&bytes, 2, 2, true), "");
}
