//! Sequence-ring arithmetic tests: forward distance, ordering, and the
//! half-ring boundary.

use rtp_opus::distance_forward;
use rtp_opus::sequence_compare;

#[test]
fn test_distance_forward_values() {
    assert_eq!(distance_forward(0, 0), 0);
    assert_eq!(distance_forward(0, 1), 1);
    assert_eq!(distance_forward(1, 0), 65535);
    assert_eq!(distance_forward(65534, 1), 3);
}

#[test]
fn test_sequence_compare_wraparound() {
    // 65534 < 65535 < 0 < 1 on the ring: the later value is within half a
    // ring ahead of the earlier one.
    assert!(sequence_compare(65535, 65534));
    assert!(sequence_compare(0, 65535));
    assert!(sequence_compare(1, 0));
    assert!(!sequence_compare(65534, 65535));
    assert!(!sequence_compare(65535, 0));
}

#[test]
fn test_ring_trichotomy_samples() {
    // For pairs short of the antipode, exactly one direction is "before":
    // a precedes b iff the distance from a up to b is under half a ring.
    let pairs: [(u16, u16); 4] = [(0, 1), (65535, 0), (100, 200), (60000, 100)];
    for (a, b) in pairs {
        let a_before_b = distance_forward(a, b) < 32768 && a != b;
        let b_before_a = distance_forward(b, a) < 32768 && a != b;
        assert!(a_before_b != b_before_a);
    }
    // Equal values: neither precedes the other.
    assert_eq!(distance_forward(42, 42), 0);
}

#[test]
fn test_late_boundary() {
    // The immediate predecessor of the expected sequence is late, the
    // immediate successor is not, for any expected value.
    for expected in [0u16, 1, 32768, 65535] {
        let behind = expected.wrapping_sub(1);
        let ahead = expected.wrapping_add(1);
        assert!(distance_forward(expected, behind) > 32768);
        assert!(distance_forward(expected, ahead) <= 32768);
    }
}
