//! A verified escape-time plotting library.
//!
//! The library computes a raster plot of an escape-time fractal in three
//! verified stages: a camera maps pixel coordinates to points of the
//! complex plane, a plot engine distributes image rows over workers and
//! aggregates their results into a dense buffer, and a gradient maps each
//! normalized metric to a color.  Plane coordinates, gradient positions
//! and hues are fixed-point integers scaled by [`FP_ONE`]; the opaque
//! per-point evaluator and all thread plumbing live outside the library
//! and hand it plain values.

pub mod color;
pub mod engine;
pub mod gradient;
pub mod image;
pub mod render;

use vstd::prelude::*;

verus! {

/// One unit (1.0) of the fixed-point scale used for plane coordinates,
/// gradient stop positions and hues: values carry 24 fractional bits.
pub const FP_ONE: i64 = 0x100_0000;

} // verus!
