//! Pitch-synchronous audio freeze.
//!
//! On a note-on the engine captures one period of the incoming signal — at
//! the frequency implied by the note's pitch — and loops it indefinitely in
//! place of the live input; on a matching note-off it cross-fades back to
//! the live signal. The crate holds the sample-accurate core: a fixed
//! capacity circular sample store ([`ring::RingBuffer`]) and the per-channel
//! engine that drives the note lifecycle ([`engine::FreezeEngine`]).
//!
//! Samples are signed 64-bit fixed-point values; the host-facing layer
//! converts to and from its own sample format at the boundary and supplies
//! the window size (one period of the held pitch at the current sample
//! rate), since that computation is a matter of the host's tuning math, not
//! of buffer bookkeeping.
use vstd::prelude::*;

pub mod blend;
pub mod engine;
pub mod midi;
pub mod ring;

verus! {

/// Number of audio channels (stereo).
pub const CHANNELS: usize = 2;

/// MIDI note 0 is about 8.176 Hz; at a maximum supported sample rate of
/// 96 kHz one period of it spans about 11742 samples, the longest window the
/// engine ever has to hold.
pub const MAX_WINDOW_SIZE: usize = 11742;

/// Length in samples of the loop-seam smoothing region and of the release
/// crossfade armed on note-off.
pub const XFADE_FRAMES: usize = 64;

} // verus!
