//! Core pipeline checks: RTP wire layout, sequence and timestamp
//! arithmetic, and audio conversion arithmetic.

use rtp_opus::RtpPacket;

/// Test RTP packet serialization against a manually constructed header.
#[test]
fn test_rtp_serialization_logic() {
    // Test basic RTP packet structure
    let sequence: u16 = 100;
    let timestamp: u32 = 32000;
    let ssrc: u32 = 0x12345678;
    let payload = vec![1, 2, 3, 4];

    // Manual RTP header construction for testing
    let mut packet = Vec::new();
    packet.push(0x80); // V=2, P=0, X=0, CC=0
    packet.push(96); // M=0, PT=96
    packet.extend_from_slice(&sequence.to_be_bytes());
    packet.extend_from_slice(&timestamp.to_be_bytes());
    packet.extend_from_slice(&ssrc.to_be_bytes());
    packet.extend_from_slice(&payload);

    // Verify header fields
    assert_eq!(packet[0] >> 6, 2); // Version
    assert_eq!(packet[1] & 0x7F, 96); // Payload type
    assert_eq!(u16::from_be_bytes([packet[2], packet[3]]), sequence);
    assert_eq!(
        u32::from_be_bytes([packet[4], packet[5], packet[6], packet[7]]),
        timestamp
    );
    assert_eq!(
        u32::from_be_bytes([packet[8], packet[9], packet[10], packet[11]]),
        ssrc
    );
    assert_eq!(&packet[12..], &payload);

    // The library produces exactly the same bytes.
    let built = RtpPacket::new(sequence, timestamp, ssrc, payload.clone());
    assert_eq!(built.serialize().expect("serialization failed"), packet);
}

/// Test sequence number wraparound
#[test]
fn test_core_pipeline_test_sequence_wraparound() {
    let seq: u16 = 65535;
    let next = seq.wrapping_add(1);
    assert_eq!(next, 0);

    let seq2: u16 = 0;
    let prev = seq2.wrapping_sub(1);
    assert_eq!(prev, 65535);
}

/// Test timestamp increment calculation
#[test]
fn test_timestamp_increment() {
    const SAMPLES_PER_FRAME: u32 = 320;

    let mut timestamp: u32 = 0;

    // Simulate sending 10 frames
    for _ in 0..10 {
        timestamp = timestamp.wrapping_add(SAMPLES_PER_FRAME);
    }

    assert_eq!(timestamp, 3200);

    // Test wraparound near u32::MAX
    let mut ts: u32 = u32::MAX - 100;
    ts = ts.wrapping_add(SAMPLES_PER_FRAME);
    assert!(ts < 320); // Should have wrapped around
}

/// Test audio conversion helpers
#[test]
fn test_audio_conversion_helpers() {
    // Test stereo to mono averaging
    let stereo = [100i16, 200, 300, 400, 500, 600];
    let mut mono = Vec::with_capacity(stereo.len() / 2);

    for chunk in stereo.chunks(2) {
        let avg = (chunk[0] as i32 + chunk[1] as i32) / 2;
        mono.push(avg as i16);
    }

    assert_eq!(mono, vec![150, 350, 550]);

    // Test basic linear interpolation concept
    let samples = [0i16, 100, 200];
    let ratio = 0.5; // Halfway between samples[0] and samples[1]
    let interpolated = samples[0] as f64 + (samples[1] as f64 - samples[0] as f64) * ratio;
    assert_eq!(interpolated, 50.0);
}
