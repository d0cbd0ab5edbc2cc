//! Radix parsing and hex-dump rendering on concrete values.

use trng_client::{get_base, hex_dump, parse_u32};

#[test]
fn hex_prefix() {
    assert_eq!(parse_u32(b"0x8000"), Some(0x8000));
    assert_eq!(parse_u32(b"0X10"), Some(16));
    assert_eq!(parse_u32(b"0xDeadBeef"), Some(0xdead_beef));
}

#[test]
fn binary_prefix() {
    assert_eq!(parse_u32(b"0b101"), Some(5));
    assert_eq!(parse_u32(b"0B11"), Some(3));
}

#[test]
fn octal_leading_zero() {
    assert_eq!(parse_u32(b"010"), Some(8));
    assert_eq!(parse_u32(b"0777"), Some(0o777));
}

#[test]
fn plain_decimal() {
    assert_eq!(parse_u32(b"0"), Some(0));
    assert_eq!(parse_u32(b"123"), Some(123));
    assert_eq!(parse_u32(b"4294967295"), Some(u32::MAX));
}

#[test]
fn rejects_overflow() {
    assert_eq!(parse_u32(b"4294967296"), None);
    assert_eq!(parse_u32(b"0x100000000"), None);
}

#[test]
fn rejects_empty_and_bad_digits() {
    assert_eq!(parse_u32(b""), None);
    assert_eq!(parse_u32(b"0x"), None);
    assert_eq!(parse_u32(b"08"), None);
    assert_eq!(parse_u32(b"00"), None);
    assert_eq!(parse_u32(b"12a"), None);
    assert_eq!(parse_u32(b"0b2"), None);
}

#[test]
fn get_base_strips_prefixes() {
    assert_eq!(get_base(b"0x8000"), (&b"8000"[..], 16));
    assert_eq!(get_base(b"0B11"), (&b"11"[..], 2));
    assert_eq!(get_base(b"0010"), (&b"10"[..], 8));
    assert_eq!(get_base(b"0"), (&b"0"[..], 10));
    assert_eq!(get_base(b"42"), (&b"42"[..], 10));
}

#[test]
fn dump_renders_one_row() {
    let block = vec![0x00u8, 0xab];
    let dump = hex_dump(&block);
    assert_eq!(String::from_utf8(dump).unwrap(), "\n0x00000: 00 ab ");
}

#[test]
fn dump_breaks_rows_every_64_bytes() {
    let block = vec![0x11u8; 65];
    let dump = String::from_utf8(hex_dump(&block)).unwrap();
    let mut expected = String::from("\n0x00000: ");
    for _ in 0..64 {
        expected.push_str("11 ");
    }
    expected.push_str("\n0x00040: 11 ");
    assert_eq!(dump, expected);
}

#[test]
fn dump_of_empty_block_is_empty() {
    assert!(hex_dump(&Vec::new()).is_empty());
}
