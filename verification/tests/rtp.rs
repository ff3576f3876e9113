//! Wire-format tests: serialization, deserialization, and rejection of
//! malformed datagrams.

use rtp_opus::RtpError;
use rtp_opus::RtpPacket;

#[test]
fn test_rtp_packet_serialization() {
    let packet = RtpPacket::new(100, 32000, 0x12345678, vec![1, 2, 3, 4]);
    let serialized = packet.serialize().expect("serialization failed");

    // Check header fields
    assert_eq!(serialized[0] >> 6, 2); // Version
    assert_eq!(serialized[1] & 0x7F, 96); // Payload type
    assert_eq!(u16::from_be_bytes([serialized[2], serialized[3]]), 100); // Sequence

    // Check payload
    assert_eq!(&serialized[12..], &[1, 2, 3, 4]);
}

#[test]
fn test_rtp_packet_deserialization() {
    let packet = RtpPacket::new(200, 64000, 0xAABBCCDD, vec![5, 6, 7, 8]);
    let serialized = packet.serialize().expect("serialization failed");

    let deserialized = RtpPacket::deserialize(&serialized).expect("deserialization failed");

    assert_eq!(deserialized.sequence, 200);
    assert_eq!(deserialized.timestamp, 64000);
    assert_eq!(deserialized.ssrc, 0xAABBCCDD);
    assert_eq!(deserialized.payload, vec![5, 6, 7, 8]);
}

#[test]
fn test_rtp_packet_too_small() {
    let data = vec![0, 1, 2]; // Only 3 bytes
    let result = RtpPacket::deserialize(&data);

    assert!(result.is_err());
}

#[test]
fn test_rtp_invalid_version() {
    let mut data = vec![0; 12];
    data[0] = 1 << 6; // Version 1 instead of 2

    let result = RtpPacket::deserialize(&data);
    assert!(result.is_err());
}

#[test]
fn rtp_test_sequence_wraparound() {
    let packet = RtpPacket::new(65535, 0, 0, vec![]);
    let serialized = packet.serialize().expect("serialization failed");
    let deserialized = RtpPacket::deserialize(&serialized).expect("deserialization failed");

    assert_eq!(deserialized.sequence, 65535);
}

#[test]
fn test_bit_exact_header() {
    let packet = RtpPacket::new(100, 32000, 0x12345678, vec![1, 2, 3, 4]);
    let serialized = packet.serialize().expect("serialization failed");

    assert_eq!(
        serialized,
        vec![
            0x80, 0x60, 0x00, 0x64, 0x00, 0x00, 0x7D, 0x00, 0x12, 0x34, 0x56, 0x78, 0x01, 0x02,
            0x03, 0x04
        ]
    );
}

#[test]
fn test_decode_rejects_too_short() {
    let result = RtpPacket::deserialize(&[0x80, 0x60, 0x00]);
    assert_eq!(result.unwrap_err(), RtpError::TooShort);
}

#[test]
fn test_decode_rejects_bad_version() {
    let mut data = vec![0u8; 12];
    data[0] = 0x40;
    let result = RtpPacket::deserialize(&data);
    assert_eq!(result.unwrap_err(), RtpError::BadVersion);
}

#[test]
fn test_round_trip_large_payload() {
    // 64 KiB payload: the largest size the round-trip property speaks of.
    let payload = vec![0xABu8; 65536];
    let packet = RtpPacket::new(1, 2, 3, payload.clone());
    let serialized = packet.serialize().expect("serialization failed");
    assert_eq!(serialized.len(), 12 + 65536);
    let deserialized = RtpPacket::deserialize(&serialized).expect("deserialization failed");
    assert_eq!(deserialized.payload, payload);
}

#[test]
fn test_round_trip_empty_payload() {
    let packet = RtpPacket::new(7, 9, 11, vec![]);
    let serialized = packet.serialize().expect("serialization failed");
    assert_eq!(serialized.len(), 12);
    let deserialized = RtpPacket::deserialize(&serialized).expect("deserialization failed");
    assert_eq!(deserialized.sequence, 7);
    assert_eq!(deserialized.timestamp, 9);
    assert_eq!(deserialized.ssrc, 11);
    assert!(deserialized.payload.is_empty());
}
