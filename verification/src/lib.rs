//! Core of an audio-timing editor: a fixed-point viewport model for a
//! scrollable, zoomable timeline, a spectrogram framing/normalization engine
//! with a parameter-keyed cache, and a piecewise beat-grid tick generator.
//!
//! Times are carried as microseconds, zoom levels as milli-pixels per second,
//! decibel bounds as centi-decibels and sample values as 16-bit fixed point,
//! so that every rule of the core is exact integer arithmetic.

pub mod arith;
pub mod audio;
pub mod export;
pub mod history;
pub mod metronome;
pub mod spectrogram;
pub mod timeline;
pub mod timing;
pub mod util;

use vstd::prelude::*;

verus! {

/// Largest time value (in microseconds) the core works with: about 11 days,
/// far beyond any audio track, small enough that products with zoom levels
/// stay within `i64`.
pub const MAX_TIME_US: i64 = 1_000_000_000_000;

} // verus!
