//! Core of a two-dimensional N-body gravity simulation.
//!
//! The library owns the simulation state (bodies with position, velocity,
//! mass, visual attributes and a motion trail) and advances it step by step
//! with a pairwise Newtonian force primitive shared by the integration
//! schemes. Rendering is left to a host loop that reads positions and trails.
//!
//! All quantities are fixed-point integers so that every step is exact and
//! reproducible:
//! - lengths are in subpixels, 1 pixel = 10_000 subpixels, 1 pixel = 4e3 m;
//! - velocities are in subpixels per step, one step lasting 1/160 s;
//! - masses are in kilograms.
#![verifier::loop_isolation(false)]

pub mod body;
pub mod engine;
pub mod laws;
pub mod math;
pub mod store;

use vstd::prelude::*;

verus! {

/// Subpixels per pixel: the resolution of the fixed-point coordinates.
pub const SUBPIXELS_PER_PIXEL: i64 = 10_000;

} // verus!
