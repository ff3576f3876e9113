//! Reception statistics tests: loss accounting, reordering, wraparound and
//! late packets.

use rtp_opus::ReceiverStats;

#[test]
fn test_stats_no_loss() {
    let mut stats = ReceiverStats::default();

    stats.record_packet(0, false);
    stats.record_packet(1, false);
    stats.record_packet(2, false);

    assert_eq!(stats.packets_received, 3);
    assert_eq!(stats.packets_lost, 0);
    let loss_pct = (stats.packets_lost as f64
        / (stats.packets_received + stats.packets_lost) as f64) * 100.0;
    assert_eq!(loss_pct, 0.0);
}

#[test]
fn test_stats_with_loss() {
    let mut stats = ReceiverStats::default();

    stats.record_packet(0, false);
    stats.record_packet(1, false);
    stats.record_packet(5, false); // Gap: lost 2, 3, 4

    assert_eq!(stats.packets_received, 3);
    assert_eq!(stats.packets_lost, 3); // Packets 2, 3, 4
    let loss_pct = (stats.packets_lost as f64
        / (stats.packets_received + stats.packets_lost) as f64) * 100.0;
    assert_eq!(loss_pct, 50.0); // 3 lost out of 6 total
}

#[test]
fn test_stats_with_reordering() {
    let mut stats = ReceiverStats::default();

    stats.record_packet(0, false);
    stats.record_packet(2, false);
    stats.record_packet(1, true); // Out of order

    assert_eq!(stats.packets_received, 3);
    assert_eq!(stats.packets_reordered, 1);

    // Use approximate equality for floating point
    let expected = 100.0 / 3.0;
    let actual = (stats.packets_reordered as f64 / stats.packets_received as f64) * 100.0;
    assert!(
        (actual - expected).abs() < 0.001,
        "Expected ~{}, got {}",
        expected,
        actual
    );
}

#[test]
fn stats_test_sequence_wraparound() {
    let mut stats = ReceiverStats::default();

    stats.record_packet(65534, false);
    stats.record_packet(65535, false);
    stats.record_packet(0, false); // Wraparound

    assert_eq!(stats.packets_received, 3);
    assert_eq!(stats.packets_lost, 0);
}

#[test]
fn test_late_packets() {
    let mut stats = ReceiverStats::default();

    stats.record_packet(0, false);
    stats.record_late_packet();
    stats.record_late_packet();

    assert_eq!(stats.packets_late, 2);
}

#[test]
fn test_network_resilience_test_receiver_stats() {
    let mut stats = ReceiverStats::new(0, 10000);

    // Simulate receiving packets with some loss and reordering
    stats.record_packet(0, false);
    stats.record_packet(1, false);
    stats.record_packet(5, false); // Gap: lost 2, 3, 4
    stats.record_packet(4, true); // Reordered

    assert_eq!(stats.packets_received, 4);
    assert_eq!(stats.packets_lost, 3);
    assert_eq!(stats.packets_reordered, 1);

    let loss_pct = (stats.packets_lost as f64
        / (stats.packets_received + stats.packets_lost) as f64) * 100.0;
    assert!((loss_pct - 42.86).abs() < 0.1); // 3 lost out of 7 total
}

#[test]
fn test_gap_returned_to_caller() {
    // record_packet reports each packet's loss contribution, so the caller
    // can mirror it into a metric.
    let mut stats = ReceiverStats::default();

    assert_eq!(stats.record_packet(0, false), 0);
    assert_eq!(stats.record_packet(1, false), 0);
    assert_eq!(stats.record_packet(5, false), 3);
    assert_eq!(stats.record_packet(6, false), 0);
    assert_eq!(stats.packets_lost, 3);
}

#[test]
fn test_wraparound_gap() {
    // A gap that straddles the wraparound still counts exactly.
    let mut stats = ReceiverStats::default();

    stats.record_packet(65534, false);
    assert_eq!(stats.record_packet(2, false), 3); // 65535, 0, 1 lost
    assert_eq!(stats.packets_lost, 3);
}

#[test]
fn test_runtime_and_log_clock() {
    let mut stats = ReceiverStats::new(1000, 5000);

    assert_eq!(stats.runtime(1000), 0);
    assert_eq!(stats.runtime(4500), 3500);

    assert!(!stats.maybe_log(4500)); // 3.5 s since creation: not yet due
    assert!(stats.maybe_log(6000)); // 5 s elapsed: due, clock restarts
    assert!(!stats.maybe_log(10000)); // only 4 s since the last log
    assert!(stats.maybe_log(11000));
}
