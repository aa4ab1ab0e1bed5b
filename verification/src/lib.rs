//! Core of a persistent audio sample editor: structurally shared sample
//! storage with an editing algebra, a multi-resolution min/max index for
//! fast range queries, and a real-time playback cursor.
//!
//! Sample amplitudes are plain `i64` values and fractional positions are
//! decimal fixed-point values, so every operation has exact integer
//! semantics that the contracts state in full.

use vstd::prelude::*;

pub mod num;
pub mod samples;
pub mod blocks;
pub mod snd;
pub mod util;
pub mod console;
pub mod player;
pub mod dsp;
pub mod edit;

verus! {

} // verus!
