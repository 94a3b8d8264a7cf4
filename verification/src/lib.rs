//! The decisions of an AirPlay 2 relay sidecar: its command line, the
//! listing and choice of receivers, where pairing keys live, and how PCM read
//! from a pipe is cut into whole frames.
use vstd::prelude::*;

pub mod devices;
pub mod flags;
pub mod frames;
pub mod paths;
pub mod pick;
pub mod read;
pub mod render;
pub mod text;

verus! {

/// Bytes per PCM frame for s16le stereo (2 channels * 2 bytes).
pub const FRAME_BYTES: usize = 4;

} // verus!
