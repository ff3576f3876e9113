//! Verified core of a one-way RTP voice streaming pipeline.
//!
//! The crate covers the logic that decides what the pipeline does with every
//! packet: the fixed 12-byte wire header (encode and decode), modular
//! arithmetic on the 16-bit sequence ring, the jitter buffer with its priming
//! and release policy, loss and reordering statistics, the sender's pacing
//! state, and the receiver's per-packet decision step.  Time enters every
//! function as a plain millisecond count, so the whole of this crate is
//! deterministic and verified; sockets, clocks, the audio device and the
//! metrics endpoint live with the callers.

pub mod audio;
pub mod codec;
pub mod color;
pub mod jitter_buffer;
pub mod receiver;
pub mod rtp;
pub mod sender;
pub mod sequence;
pub mod stats;

pub use audio::convert_to_mono;
pub use audio::convert_to_target_format;
pub use audio::resample_linear;
pub use audio::AudioData;
pub use codec::SAMPLES_PER_FRAME;
pub use color::ColorWhen;
pub use jitter_buffer::InsertOutcome;
pub use jitter_buffer::JitterBuffer;
pub use jitter_buffer::JitterBufferConfig;
pub use jitter_buffer::JitterBufferStatus;
pub use receiver::ArrivalReport;
pub use receiver::ReceiverCore;
pub use rtp::RtpError;
pub use rtp::RtpPacket;
pub use sender::SenderState;
pub use stats::ReceiverStats;
pub use sequence::distance_forward;
pub use sequence::sequence_compare;
