//! Jitter buffer behaviour under simulated network disorder.

use rtp_opus::JitterBuffer;
use rtp_opus::JitterBufferConfig;
use rtp_opus::RtpPacket;

#[test]
fn test_network_resilience_test_jitter_buffer_in_order() {
    let config = JitterBufferConfig {
        depth_ms: 0, // No delay for testing
        max_packets: 10,
    };

    let mut buffer = JitterBuffer::new(config);

    // Create test packets
    for seq in 0..5 {
        let packet = RtpPacket::new(seq, seq as u32 * 320, 0x12345678, vec![1, 2, 3]);
        buffer.insert(packet, 0);
    }

    // Should play out in order
    for seq in 0..5 {
        let (packet, _) = buffer.get_next(0).expect("packet should be available");
        assert_eq!(packet.sequence, seq);
    }

    println!("✓ Jitter buffer handles in-order packets");
}

#[test]
fn test_network_resilience_test_jitter_buffer_reordering() {
    let config = JitterBufferConfig { depth_ms: 0, max_packets: 10 };

    let mut buffer = JitterBuffer::new(config);

    // Insert packets out of order
    let packets = [0, 2, 1, 4, 3];
    for &seq in &packets {
        let packet = RtpPacket::new(seq, seq as u32 * 320, 0x12345678, vec![1, 2, 3]);
        buffer.insert(packet, 0);
    }

    // Should play out in correct order
    for seq in 0..5 {
        let (packet, _) = buffer.get_next(0).expect("packet should be available");
        assert_eq!(packet.sequence, seq);
    }

    println!("✓ Jitter buffer reorders packets correctly");
}
