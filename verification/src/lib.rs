//! Smoothed ambient light for a cubic voxel chunk.
//!
//! A chunk is a 34x34x34 grid of light samples: a 32^3 interior plus a
//! one-voxel halo on every face. The pipeline spreads light along each axis
//! in turn, with intensity falling off by one unit per voxel of travel, and
//! then halves the light at every voxel whose block is solid.

use vstd::prelude::*;

pub mod blur;
pub mod geom;
pub mod laws;
pub mod model;
pub mod occlusion;
pub mod pipeline;

pub use pipeline::finish_light;

verus! {

/// Number of samples in one chunk buffer: a side of 34 voxels, the
/// 32-voxel interior plus a one-voxel halo on each face.
pub const VOLUME: usize = 34 * 34 * 34;

} // verus!
