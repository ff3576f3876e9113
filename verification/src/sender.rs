//! Sender pacing state: the deterministic frame clock that assigns
//! monotonically increasing sequence and timestamp fields, one packet per
//! frame.
//!
//! The caller owns the loop that encodes frames, transmits datagrams and
//! sleeps between ticks; this state machine decides what every emitted
//! packet carries.

use vstd::prelude::*;

use crate::codec::SAMPLES_PER_FRAME;
use crate::rtp::RtpPacket;
use crate::sequence::seq_next;

verus! {

/// Timestamp advance per frame on the 32-bit media clock:
/// `(t + SAMPLES_PER_FRAME) mod 2^32`.
pub open spec fn ts_next(t: u32) -> u32 {
    if t + 320 <= u32::MAX {
        (t + 320) as u32
    } else {
        (t + 320 - 0x100000000) as u32
    }
}

/// Per-session sender state.
#[derive(Debug, Clone)]
pub struct SenderState {
    /// Sequence number of the next packet, advancing modulo 2^16.
    pub sequence: u16,
    /// Media-clock timestamp of the next packet, advancing by one frame of
    /// samples modulo 2^32.
    pub timestamp: u32,
    /// Synchronization source identifier, chosen once per session.
    pub ssrc: u32,
    /// Frames emitted so far.
    pub frames_sent: u64,
}

impl SenderState {
    /// A fresh session: sequence and timestamp start at zero.
    pub fn new(ssrc: u32) -> (s: Self)
        ensures
            s.sequence == 0,
            s.timestamp == 0,
            s.ssrc == ssrc,
            s.frames_sent == 0,
    {
        Self { sequence: 0, timestamp: 0, ssrc, frames_sent: 0 }
    }

    /// Builds the packet for the next frame and advances the clock: the
    /// packet carries the current sequence, timestamp and SSRC; afterwards
    /// the sequence has grown by one modulo 2^16 and the timestamp by one
    /// frame of samples modulo 2^32.
    pub fn next_packet(&mut self, payload: Vec<u8>) -> (p: RtpPacket)
        requires
            old(self).frames_sent < u64::MAX,
        ensures
            p@.sequence == old(self).sequence,
            p@.timestamp == old(self).timestamp,
            p@.ssrc == old(self).ssrc,
            p@.payload == payload@,
            final(self).sequence == seq_next(old(self).sequence),
            final(self).timestamp == ts_next(old(self).timestamp),
            final(self).ssrc == old(self).ssrc,
            final(self).frames_sent == old(self).frames_sent + 1,
    {
        let p = RtpPacket::new(self.sequence, self.timestamp, self.ssrc, payload);
        self.sequence = self.sequence.wrapping_add(1);
        self.timestamp = self.timestamp.wrapping_add(SAMPLES_PER_FRAME as u32);
        self.frames_sent = self.frames_sent + 1;
        p
    }
}

} // verus!
