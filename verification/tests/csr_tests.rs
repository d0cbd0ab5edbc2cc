//! Symbol-table resolution against regions built the way the device
//! lays them out: length prefix, records, padding, SHA-512 digest.

use sha2::Digest;
use trng_client::{resolve, CsrError};

/// Assemble a region: 4-byte little-endian payload length, the payload,
/// zero padding, and the digest over everything before it.
fn build_region(payload: &[u8], region_len: usize) -> Vec<u8> {
    assert!(payload.len() + 68 <= region_len);
    let mut raw = Vec::new();
    raw.extend_from_slice(&(payload.len() as u32).to_le_bytes());
    raw.extend_from_slice(payload);
    while raw.len() < region_len - 64 {
        raw.push(0);
    }
    let digest = sha2::Sha512::digest(&raw);
    raw.extend_from_slice(&digest);
    raw
}

const TABLE: &[u8] = b"csr_register,FOO,0x100,2\n\
csr_register,bar,0x200,1\n\
csr_base,audio,0xe0000000\n\
memory_region,sram,0x10000000,0x20000,cached\n\
unknown_kind,ignored,0x0\n";

#[test]
fn valid_table_resolves_names() {
    let raw = build_region(TABLE, 512);
    let table = resolve(&raw).expect("table should resolve");
    assert_eq!(table.get(b"bar"), Some(0x200));
    assert_eq!(table.get(b"audio"), Some(0xe000_0000));
    assert_eq!(table.get(b"sram"), Some(0x1000_0000));
    assert_eq!(table.get(b"ignored"), None);
}

#[test]
fn names_are_case_folded() {
    let raw = build_region(TABLE, 512);
    let table = resolve(&raw).expect("table should resolve");
    assert_eq!(table.get(b"foo"), Some(0x100));
    assert_eq!(table.get(b"FOO"), None);
}

#[test]
fn wide_register_limbs_resolve_in_descending_order() {
    let raw = build_region(TABLE, 512);
    let table = resolve(&raw).expect("table should resolve");
    assert_eq!(table.get(b"foo"), Some(0x100));
    assert_eq!(table.get(b"foo1"), Some(0x100));
    assert_eq!(table.get(b"foo0"), Some(0x104));
    assert_eq!(table.get(b"foo2"), None);
}

#[test]
fn corrupted_digest_byte_is_fatal() {
    let mut raw = build_region(TABLE, 512);
    let last = raw.len() - 1;
    raw[last] ^= 0x01;
    assert_eq!(resolve(&raw).err(), Some(CsrError::DigestMismatch));
}

#[test]
fn corrupted_table_byte_is_fatal() {
    let mut raw = build_region(TABLE, 512);
    raw[7] ^= 0x40;
    assert_eq!(resolve(&raw).err(), Some(CsrError::DigestMismatch));
}

#[test]
fn short_region_is_fatal() {
    let raw = vec![0u8; 67];
    assert_eq!(resolve(&raw).err(), Some(CsrError::ShortRegion));
}

#[test]
fn oversized_length_prefix_is_fatal() {
    // A region whose digest is right but whose length prefix points
    // past the digest.
    let mut raw = Vec::new();
    raw.extend_from_slice(&10_000u32.to_le_bytes());
    while raw.len() < 512 - 64 {
        raw.push(0);
    }
    let digest = sha2::Sha512::digest(&raw);
    raw.extend_from_slice(&digest);
    assert_eq!(resolve(&raw).err(), Some(CsrError::BadLength));
}

#[test]
fn unparsable_number_is_malformed() {
    let raw = build_region(b"csr_register,foo,zz,1\n", 512);
    assert_eq!(resolve(&raw).err(), Some(CsrError::Malformed));
}

#[test]
fn missing_fields_are_malformed() {
    let raw = build_region(b"csr_register,foo,0x100\n", 512);
    assert_eq!(resolve(&raw).err(), Some(CsrError::Malformed));
}

#[test]
fn missing_required_symbol_is_reported() {
    let raw = build_region(TABLE, 512);
    let table = resolve(&raw).expect("table should resolve");
    assert_eq!(table.require(b"bar"), Ok(0x200));
    assert_eq!(
        table.require(b"messible_out"),
        Err(CsrError::MissingSymbol)
    );
}

#[test]
fn later_record_wins_on_name_collision() {
    let raw = build_region(b"csr_base,dup,0x10\ncsr_base,dup,0x20\n", 512);
    let table = resolve(&raw).expect("table should resolve");
    assert_eq!(table.get(b"dup"), Some(0x20));
}

#[test]
fn empty_payload_resolves_to_empty_table() {
    let raw = build_region(b"", 512);
    let table = resolve(&raw).expect("table should resolve");
    assert_eq!(table.get(b"anything"), None);
}

#[test]
fn crlf_lines_are_accepted() {
    let raw = build_region(b"csr_base,ctrl,0x44\r\n", 512);
    let table = resolve(&raw).expect("table should resolve");
    assert_eq!(table.get(b"ctrl"), Some(0x44));
}
