//! Core engine for fusing GPS telemetry with a video timeline.
//!
//! The library turns raw track files (GPX or NMEA) into a normalized,
//! time-ordered point sequence, aligns absolute GPS time onto a video's
//! relative timeline, and derives confidence-scored location facts for a
//! queried point.
//!
//! Fractional quantities are carried as fixed-point integers: angles and
//! coordinates in millionths of a degree, speeds in millionths of a km/h,
//! elevations in millionths of a meter, timestamps and video times in
//! milliseconds, and confidence scores in millionths (a score of one means
//! the value `1_000_000`).
#![verifier::loop_isolation(false)]

use vstd::prelude::*;

pub mod bytes;
pub mod clock;
pub mod fixed;
pub mod format;
pub mod geomath;
pub mod gps;
pub mod gpx;
pub mod narrative;
pub mod nmea;
pub mod pat;
pub mod sync;
pub mod transcript;
pub mod truth;

verus! {

/// Largest magnitude (in millionths) that the fixed-point parser accepts.
pub const SCALED_LIMIT: i64 = 1_000_000_000_000_000_000;

} // verus!
