//! The audio frame contract shared by sender, codec, receiver and sink.
//!
//! The codec itself is an external collaborator: an opaque encoder/decoder
//! with a fixed frame size and a loss-concealment entry point.  What the
//! core relies on is only the frame geometry fixed here.

use vstd::prelude::*;

verus! {

/// Sample rate of the media clock (16 kHz wideband).
pub const SAMPLE_RATE: u32 = 16000;

/// Number of audio channels (mono).
pub const CHANNELS: usize = 1;

/// Frame duration in milliseconds.
pub const FRAME_DURATION_MS: usize = 20;

/// Samples per frame: 20 ms at 16 kHz.  Every encoded packet carries
/// exactly this many samples.
pub const SAMPLES_PER_FRAME: usize = 320;

/// Target bitrate in bits per second.
pub const BITRATE: i32 = 24000;

/// Upper bound on the size of one encoded frame in bytes.
pub const MAX_ENCODED_FRAME_BYTES: usize = 4000;

} // verus!
