//! Sender pacing tests: deterministic sequence and timestamp assignment.

use rtp_opus::AudioData;
use rtp_opus::SenderState;
use rtp_opus::SAMPLES_PER_FRAME;

#[test]
fn test_sender_tick_determinism() {
    // A source of exactly five frames yields five packets whose sequences
    // and timestamps advance by 1 and by 320 per tick.
    let samples = vec![0i16; 5 * SAMPLES_PER_FRAME];
    let audio = AudioData { samples, original_sample_rate: 16000, original_channels: 1 };
    let mut state = SenderState::new(0x12345678);

    let mut packets = Vec::new();
    for frame in audio.frames() {
        if frame.len() == SAMPLES_PER_FRAME {
            // stand-in for the encoded payload
            packets.push(state.next_packet(vec![0u8; 40]));
        }
    }

    assert_eq!(packets.len(), 5);
    for (i, packet) in packets.iter().enumerate() {
        assert_eq!(packet.sequence, i as u16);
        assert_eq!(packet.timestamp, i as u32 * 320);
        assert_eq!(packet.ssrc, 0x12345678);
    }
    assert_eq!(state.frames_sent, 5);
}

#[test]
fn test_sender_short_tail_discarded() {
    // A trailing partial frame emits no packet.
    let samples = vec![0i16; 2 * SAMPLES_PER_FRAME + 100];
    let audio = AudioData { samples, original_sample_rate: 16000, original_channels: 1 };
    let mut state = SenderState::new(1);

    let mut sent: u32 = 0;
    for frame in audio.frames() {
        if frame.len() == SAMPLES_PER_FRAME {
            state.next_packet(vec![]);
            sent += 1;
        }
    }
    assert_eq!(sent, 2);
}

#[test]
fn test_sender_wraparound() {
    // Sequence and timestamp wrap at their widths without disturbing each
    // other.
    let mut state = SenderState { sequence: 65535, timestamp: u32::MAX - 100, ssrc: 9, frames_sent: 0 };

    let p = state.next_packet(vec![1]);
    assert_eq!(p.sequence, 65535);
    assert_eq!(p.timestamp, u32::MAX - 100);

    assert_eq!(state.sequence, 0);
    assert!(state.timestamp < 320);
    assert_eq!(state.frames_sent, 1);
}
