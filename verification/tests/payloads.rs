use bonanza_bridge_fw::info::{encode, EncodeError, INFO_SCHEMA_VERSION, PROTOCOL_MAJOR, PROTOCOL_MINOR, VERSION_MAX_LENGTH};
use bonanza_bridge_fw::rx_stats;

#[test]
fn accepts_the_maximum_version_length() {
    let version = "v".repeat(VERSION_MAX_LENGTH);
    let payload = encode(&version).unwrap();

    assert_eq!(payload.len(), VERSION_MAX_LENGTH + 4);
    assert_eq!(payload[3] as usize, VERSION_MAX_LENGTH);
}

#[test]
fn rejects_versions_the_esp_miner_cannot_decode() {
    assert_eq!(encode(""), Err(EncodeError::EmptyVersion));
    assert_eq!(encode(&"v".repeat(VERSION_MAX_LENGTH + 1)), Err(EncodeError::VersionTooLong));
    assert_eq!(encode("0.0.1\n"), Err(EncodeError::VersionNotPrintableAscii));
    assert_eq!(encode("0.0.1-é"), Err(EncodeError::VersionNotPrintableAscii));
}

#[test]
fn rx_stats_payload_is_fixed_width_and_little_endian() {
    let payload = rx_stats::encode(0x1234_5678, 0x90ab_cdef);

    assert_eq!(payload.as_slice(), &[1, 0x78, 0x56, 0x34, 0x12, 0xef, 0xcd, 0xab, 0x90]);
}

#[test]
fn info_payload_matches_the_readme_example() {
    let payload = encode("1.2.3").unwrap();
    assert_eq!(payload.as_slice(), &[0x01, 0x01, 0x00, 0x05, 0x31, 0x2e, 0x32, 0x2e, 0x33]);
    assert_eq!(payload[0], INFO_SCHEMA_VERSION);
    assert_eq!(payload[1], PROTOCOL_MAJOR);
    assert_eq!(payload[2], PROTOCOL_MINOR);
}

#[test]
fn info_accepts_printable_edges_and_rejects_just_outside() {
    assert_eq!(encode(" ~").unwrap().as_slice(), &[1, 1, 0, 2, 0x20, 0x7e]);
    assert_eq!(encode("a\u{7f}"), Err(EncodeError::VersionNotPrintableAscii));
    assert_eq!(encode("a\u{1f}"), Err(EncodeError::VersionNotPrintableAscii));
}

#[test]
fn too_long_is_reported_before_unprintable() {
    let version = "\n".repeat(VERSION_MAX_LENGTH + 1);
    assert_eq!(encode(&version), Err(EncodeError::VersionTooLong));
}

#[test]
fn zero_rx_stats_match_the_readme_example() {
    assert_eq!(rx_stats::encode(0, 0).as_slice(), &[1, 0, 0, 0, 0, 0, 0, 0, 0]);
    assert_eq!(rx_stats::encode(u32::MAX, 1).as_slice(), &[1, 0xff, 0xff, 0xff, 0xff, 1, 0, 0, 0]);
    assert_eq!(rx_stats::encode(1, 2).len(), rx_stats::PAYLOAD_LENGTH);
}
