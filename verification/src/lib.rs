//! Core of a binaural virtual-surround renderer.
//!
//! The library holds the verified logic of the filter: speaker positions and
//! their left/right mirror table, the ordered channel map built from a
//! recording's layout, validation of the sample encoding, planning of the
//! transform length, resolution of the per-ear impulse channels, and the
//! sliding window that turns an arbitrary-rate interleaved stream into
//! fixed-size convolution frames.
//!
//! The floating-point signal path itself (spectral multiply-accumulate,
//! normalization, clipping) and all device and file I/O live outside the
//! library and consume the state and bookkeeping proved here.

use vstd::prelude::*;

pub mod channel;
pub mod channel_map;
pub mod error;
pub mod filter;
pub mod format;
pub mod planning;
pub mod window;

verus! {

/// Most channels a HRIR recording may carry; enough for a 22.2 layout.
pub const MAX_CHANNELS: usize = 24;

/// Number of valid output samples produced per convolution frame.
pub const BLOCK_SIZE: usize = 512;

} // verus!
