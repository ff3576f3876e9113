//! The receiver's per-packet decision step.
//!
//! One call of [`ReceiverCore::on_packet`] performs everything the receive
//! loop decides for a freshly parsed packet: reordering classification,
//! transit-time estimation, jitter-buffer insertion and statistics, and it
//! reports which counters the caller must mirror to its metrics.  Repeated
//! calls of [`ReceiverCore::poll_playout`] then drain whatever is ready for
//! the decoder and the audio sink.  The caller owns the socket, the decoder,
//! the sink and the clock.

use vstd::prelude::*;

use crate::jitter_buffer::insert_post;
use crate::jitter_buffer::pop_post;
use crate::jitter_buffer::InsertOutcome;
use crate::jitter_buffer::JitterBuffer;
use crate::jitter_buffer::JitterBufferConfig;
use crate::rtp::RtpPacket;
use crate::stats::record_packet_post;
use crate::stats::ReceiverStats;

verus! {

/// Forward distance on the 32-bit media clock: `(b - a) mod 2^32`.
pub open spec fn ts_dist(a: u32, b: u32) -> int {
    if b >= a {
        b - a
    } else {
        b - a + 0x100000000
    }
}

/// The transit-time estimate for a packet, in milliseconds: how much later
/// than its media-clock schedule it arrived.  The schedule anchors at the
/// first packet (`t0`, `a0`); a packet with timestamp `ts` is expected
/// `ts_dist(t0, ts) / 16` ms after `a0` (16 samples per millisecond).
/// Early arrivals yield `None`: the estimator measures excess transit, not
/// skew.
pub open spec fn transit_spec(t0: u32, a0: u64, ts: u32, now_ms: u64) -> Option<u64> {
    let expected = a0 + ts_dist(t0, ts) / 16;
    if now_ms >= expected {
        Some((now_ms - expected) as u64)
    } else {
        None
    }
}

/// What the receive loop must do with one packet's outcome: the counters to
/// mirror into metrics.
#[derive(Debug, Clone, Copy)]
pub struct ArrivalReport {
    /// What the jitter buffer did with the packet.
    pub outcome: InsertOutcome,
    /// Whether the packet arrived out of the expected order.
    pub reordered: bool,
    /// Sequence gap this packet revealed; mirror into the lost-packets
    /// counter.
    pub loss_gap: u64,
    /// Excess network transit in milliseconds, when not early.
    pub transit_ms: Option<u64>,
    /// Buffer occupancy after the insertion, for the occupancy gauge.
    pub buffered_packets: usize,
}

/// State of the receive loop: jitter buffer, statistics, and the transit
/// estimator's anchor.
pub struct ReceiverCore {
    /// The jitter buffer, owned exclusively by this loop.
    pub jitter: JitterBuffer,
    /// Reception statistics.
    pub stats: ReceiverStats,
    /// The transit anchor's media-clock part, set by the first packet.
    pub first_timestamp: Option<u32>,
    /// The transit anchor's arrival-time part, set by the first packet.
    pub first_arrival_ms: Option<u64>,
}

impl ReceiverCore {
    /// The transit anchor's media-clock part, set by the first packet.
    pub open spec fn anchor_ts(self) -> Option<u32> {
        self.first_timestamp
    }

    /// The transit anchor's arrival-time part, set by the first packet.
    pub open spec fn anchor_ms(self) -> Option<u64> {
        self.first_arrival_ms
    }

    /// Well-formedness: the jitter buffer invariant holds and the two
    /// halves of the transit anchor are set together.
    pub open spec fn wf(self) -> bool {
        &&& self.jitter.wf()
        &&& self.anchor_ts().is_some() == self.anchor_ms().is_some()
    }

    /// Headroom so one more packet cannot overflow the statistics counters.
    pub open spec fn stats_headroom(self) -> bool {
        &&& self.stats.packets_received < u64::MAX
        &&& self.stats.packets_reordered < u64::MAX
        &&& self.stats.packets_late < u64::MAX
        &&& self.stats.packets_lost <= u64::MAX - 65535
    }

    /// A fresh receive loop: empty jitter buffer, zeroed statistics
    /// anchored at `now_ms`, no transit anchor yet.
    pub fn new(config: JitterBufferConfig, now_ms: u64, log_interval_ms: u64) -> (c: Self)
        ensures
            c.wf(),
            c.stats_headroom(),
            c.jitter.entries().len() == 0,
            c.jitter.next_seq() is None,
            !c.jitter.primed(),
            c.jitter.depth_ms() == config.depth_ms,
            c.jitter.max_packets() == config.max_packets,
            c.stats.packets_received == 0,
            c.stats.packets_lost == 0,
            c.stats.packets_reordered == 0,
            c.stats.packets_late == 0,
            c.stats.last_sequence is None,
            c.stats.start_ms == now_ms,
            c.stats.last_log_ms == now_ms,
            c.stats.log_interval_ms == log_interval_ms,
            c.anchor_ts() is None,
    {
        Self {
            jitter: JitterBuffer::new(config),
            stats: ReceiverStats::new(now_ms, log_interval_ms),
            first_timestamp: None,
            first_arrival_ms: None,
        }
    }

    /// Handles one parsed packet that arrived at `now_ms`.
    ///
    /// The first packet anchors the transit estimator at its own timestamp
    /// and arrival.  The packet is classified as reordered before insertion,
    /// then inserted; a `Late` packet bumps the late counter, a `Duplicate`
    /// is discarded silently, and only an `Inserted` packet feeds the loss
    /// accounting, as its `loss_gap` reports.
    pub fn on_packet(&mut self, packet: RtpPacket, now_ms: u64) -> (report: ArrivalReport)
        requires
            old(self).wf(),
            old(self).stats_headroom(),
        ensures
            final(self).wf(),
            ({
                let pre = *old(self);
                let post = *final(self);
                let t0 = if pre.anchor_ts().is_some() {
                    pre.anchor_ts().unwrap()
                } else {
                    packet@.timestamp
                };
                let a0 = if pre.anchor_ms().is_some() {
                    pre.anchor_ms().unwrap()
                } else {
                    now_ms
                };
                &&& post.anchor_ts() == Some(t0)
                &&& post.anchor_ms() == Some(a0)
                &&& report.transit_ms == transit_spec(t0, a0, packet@.timestamp, now_ms)
                &&& report.reordered == (pre.jitter.next_seq().is_some() && packet@.sequence
                    != pre.jitter.next_seq().unwrap())
                &&& insert_post(pre.jitter, post.jitter, packet@, now_ms, report.outcome)
                &&& report.buffered_packets == post.jitter.entries().len()
                &&& (report.outcome == InsertOutcome::Late ==> report.loss_gap == 0 && post.stats
                    == (ReceiverStats {
                    packets_late: (pre.stats.packets_late + 1) as u64,
                    ..pre.stats
                }))
                &&& (report.outcome == InsertOutcome::Duplicate || report.outcome
                    == InsertOutcome::Overflowed ==> report.loss_gap == 0 && post.stats
                    == pre.stats)
                &&& (report.outcome == InsertOutcome::Inserted ==> record_packet_post(
                    pre.stats,
                    post.stats,
                    packet@.sequence,
                    report.reordered,
                    report.loss_gap,
                ))
            }),
    {
        // Anchor the media-clock schedule on the first packet.
        if self.first_timestamp.is_none() {
            self.first_timestamp = Some(packet.timestamp);
            self.first_arrival_ms = Some(now_ms);
        }
        let t0: u32 = self.first_timestamp.unwrap();
        let a0: u64 = self.first_arrival_ms.unwrap();

        // Excess transit relative to the schedule, in whole milliseconds.
        let dt_samples: u32 = packet.timestamp.wrapping_sub(t0);
        let dt_ms: u64 = (dt_samples / 16) as u64;
        let transit_ms: Option<u64> = if now_ms >= a0 && now_ms - a0 >= dt_ms {
            Some(now_ms - a0 - dt_ms)
        } else {
            None
        };

        let sequence: u16 = packet.sequence;
        let reordered: bool = self.jitter.was_reordered(sequence);
        let outcome = self.jitter.insert(packet, now_ms);

        let mut loss_gap: u64 = 0;
        match outcome {
            InsertOutcome::Late => {
                self.stats.record_late_packet();
            },
            InsertOutcome::Duplicate => {},
            InsertOutcome::Overflowed => {},
            InsertOutcome::Inserted => {
                loss_gap = self.stats.record_packet(sequence, reordered);
            },
        }

        ArrivalReport {
            outcome,
            reordered,
            loss_gap,
            transit_ms,
            buffered_packets: self.jitter.status().buffered_packets,
        }
    }

    /// Retrieves the next packet ready for playout at `now_ms`, with its
    /// buffering delay, exactly as the jitter buffer releases it.
    pub fn poll_playout(&mut self, now_ms: u64) -> (r: Option<(RtpPacket, u64)>)
        requires
            old(self).wf(),
        ensures
            final(self).wf(),
            final(self).stats == old(self).stats,
            final(self).anchor_ts() == old(self).anchor_ts(),
            final(self).anchor_ms() == old(self).anchor_ms(),
            pop_post(old(self).jitter, final(self).jitter, now_ms, r),
    {
        self.jitter.get_next(now_ms)
    }
}

} // verus!
