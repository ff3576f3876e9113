//! Reception statistics: loss detection via sequence gaps, reordering and
//! late-packet counting, and the periodic-log clock.
//!
//! Time is a plain millisecond count supplied by the caller, so every
//! function here is a deterministic state transition.

use vstd::prelude::*;

use crate::sequence::seq_add;
use crate::sequence::seq_dist;
use crate::sequence::seq_next;
use crate::sequence::lemma_dist_add;

verus! {

/// Milliseconds elapsed from `start` to `now`, zero if `now` is earlier.
pub open spec fn elapsed_ms(start: u64, now: u64) -> int {
    if now >= start {
        now - start
    } else {
        0
    }
}

/// The loss a packet contributes when it arrives in order: the length of the
/// sequence gap between the previously seen packet and this one.
pub open spec fn loss_gap(last_sequence: Option<u16>, sequence: u16) -> int {
    match last_sequence {
        Option::None => 0,
        Option::Some(prev) => if sequence == seq_next(prev) {
            0
        } else {
            seq_dist(seq_next(prev), sequence)
        },
    }
}

/// Network and reception statistics.
#[derive(Debug, Clone)]
pub struct ReceiverStats {
    /// Total packets received successfully.
    pub packets_received: u64,
    /// Total packets lost (detected via sequence gaps).
    pub packets_lost: u64,
    /// Total packets that arrived out of order.
    pub packets_reordered: u64,
    /// Total packets that arrived too late for playout.
    pub packets_late: u64,
    /// Last sequence number seen on an in-order packet.
    pub last_sequence: Option<u16>,
    /// When this tracker was created, in milliseconds.
    pub start_ms: u64,
    /// Last time the periodic log fired, in milliseconds.
    pub last_log_ms: u64,
    /// Interval between periodic logs, in milliseconds.
    pub log_interval_ms: u64,
}

/// What `record_packet` does to a tracker: `pre` becomes `post` when a packet
/// with the given sequence arrives, and `gap` is its loss contribution.
pub open spec fn record_packet_post(
    pre: ReceiverStats,
    post: ReceiverStats,
    sequence: u16,
    was_reordered: bool,
    gap: u64,
) -> bool {
    &&& post.packets_received == pre.packets_received + 1
    &&& post.packets_late == pre.packets_late
    &&& post.start_ms == pre.start_ms
    &&& post.last_log_ms == pre.last_log_ms
    &&& post.log_interval_ms == pre.log_interval_ms
    &&& if was_reordered {
        &&& gap == 0
        &&& post.packets_reordered == pre.packets_reordered + 1
        &&& post.packets_lost == pre.packets_lost
        &&& post.last_sequence == pre.last_sequence
    } else {
        &&& gap == loss_gap(pre.last_sequence, sequence)
        &&& post.packets_reordered == pre.packets_reordered
        &&& post.packets_lost == pre.packets_lost + gap
        &&& post.last_sequence == Some(sequence)
    }
}

impl ReceiverStats {
    /// Creates a new tracker anchored at `now_ms`, logging every
    /// `log_interval_ms` milliseconds.
    pub fn new(now_ms: u64, log_interval_ms: u64) -> (s: Self)
        ensures
            s.packets_received == 0,
            s.packets_lost == 0,
            s.packets_reordered == 0,
            s.packets_late == 0,
            s.last_sequence is None,
            s.start_ms == now_ms,
            s.last_log_ms == now_ms,
            s.log_interval_ms == log_interval_ms,
    {
        Self {
            packets_received: 0,
            packets_lost: 0,
            packets_reordered: 0,
            packets_late: 0,
            last_sequence: None,
            start_ms: now_ms,
            last_log_ms: now_ms,
            log_interval_ms,
        }
    }

    /// Records a received packet and returns its loss contribution: the
    /// sequence gap to the previously seen packet, 0 when the packet is in
    /// order, reordered, or the first one.  `last_sequence` advances only on
    /// in-order packets.
    pub fn record_packet(&mut self, sequence: u16, was_reordered: bool) -> (gap: u64)
        requires
            old(self).packets_received < u64::MAX,
            old(self).packets_reordered < u64::MAX,
            old(self).packets_lost <= u64::MAX - 65535,
        ensures
            record_packet_post(*old(self), *final(self), sequence, was_reordered, gap),
    {
        self.packets_received = self.packets_received + 1;

        if was_reordered {
            self.packets_reordered = self.packets_reordered + 1;
            return 0;
        }

        let mut gap: u64 = 0;
        match self.last_sequence {
            Some(prev) => {
                let expected: u16 = prev.wrapping_add(1);
                if sequence != expected {
                    gap = crate::sequence::distance_forward(expected, sequence) as u64;
                    self.packets_lost = self.packets_lost + gap;
                }
            },
            None => {},
        }
        self.last_sequence = Some(sequence);
        gap
    }

    /// Records a packet that arrived too late to be played.
    pub fn record_late_packet(&mut self)
        requires
            old(self).packets_late < u64::MAX,
        ensures
            *final(self) == (ReceiverStats {
                packets_late: (old(self).packets_late + 1) as u64,
                ..*old(self)
            }),
    {
        self.packets_late = self.packets_late + 1;
    }

    /// Milliseconds this tracker has been running at `now_ms`.
    pub fn runtime(&self, now_ms: u64) -> (r: u64)
        ensures
            r == elapsed_ms(self.start_ms, now_ms),
    {
        if now_ms >= self.start_ms {
            now_ms - self.start_ms
        } else {
            0
        }
    }

    /// Whether the periodic log is due at `now_ms`; when it is, the log
    /// clock restarts at `now_ms`.  The caller emits the log line.
    pub fn maybe_log(&mut self, now_ms: u64) -> (due: bool)
        ensures
            due == (elapsed_ms(old(self).last_log_ms, now_ms) >= old(self).log_interval_ms),
            final(self).last_log_ms == if due {
                now_ms
            } else {
                old(self).last_log_ms
            },
            *final(self) == (ReceiverStats { last_log_ms: final(self).last_log_ms, ..*old(self) }),
    {
        let elapsed: u64 = if now_ms >= self.last_log_ms {
            now_ms - self.last_log_ms
        } else {
            0
        };
        if elapsed >= self.log_interval_ms {
            self.last_log_ms = now_ms;
            true
        } else {
            false
        }
    }
}

impl Default for ReceiverStats {
    /// A tracker anchored at time zero with the default 5-second log
    /// interval.
    fn default() -> (s: Self)
        ensures
            s.packets_received == 0,
            s.packets_lost == 0,
            s.packets_reordered == 0,
            s.packets_late == 0,
            s.last_sequence is None,
            s.start_ms == 0,
            s.last_log_ms == 0,
            s.log_interval_ms == 5000,
    {
        ReceiverStats::new(0, 5000)
    }
}

/// Loss accounting over a gap: in an in-order stream where the last seen
/// sequence is `prev` and the next packet to arrive skips `k` sequences
/// (it carries `prev + 1 + k` modulo the ring), the recorded loss is exactly
/// `k`; in particular the immediate successor contributes no loss.
pub proof fn lemma_single_gap_loss(prev: u16, k: u16)
    requires
        k <= 65534,
    ensures
        loss_gap(Some(prev), seq_add(seq_next(prev), k)) == k,
        loss_gap(Some(prev), seq_next(prev)) == 0,
{
    lemma_dist_add(seq_next(prev), k);
}

} // verus!
