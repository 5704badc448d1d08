//! A verified core for an interactive k-means clustering demonstration.
//!
//! The library generates a synthetic 2-D point cloud, partitions it into
//! `K` clusters around `K` centroids by nearest squared distance, and
//! recomputes each centroid as the mean of its assigned points.  An
//! external render/input loop drives it through the [`session::Session`]
//! operations and reads back the data.
//!
//! World coordinates are fixed-point integers: [`WORLD_SCALE`] units per
//! world unit, so the world square [-20, 20] x [-20, 20] is
//! [`MIN_X`]..[`MAX_X`] by [`MIN_Y`]..[`MAX_Y`] in stored units.

use vstd::prelude::*;

pub mod assigner;
pub mod geometry;
pub mod sampler;
pub mod session;
pub mod updater;

verus! {

/// Fixed-point units per world unit.
pub const WORLD_SCALE: i64 = 1000;

/// Western edge of the world, in fixed-point units (-20 world units).
pub const MIN_X: i64 = -20000;

/// Eastern edge of the world, in fixed-point units (20 world units).
pub const MAX_X: i64 = 20000;

/// Southern edge of the world, in fixed-point units (-20 world units).
pub const MIN_Y: i64 = -20000;

/// Northern edge of the world, in fixed-point units (20 world units).
pub const MAX_Y: i64 = 20000;

/// Number of clusters; fixed for the process lifetime.
pub const K: usize = 4;

/// Points per synthetic blob.
pub const BLOB_COUNT: usize = 100;

/// Radius of the central blob, in fixed-point units (10 world units).
pub const CENTER_BLOB_RADIUS: i64 = 10000;

/// Radius of each corner blob, in fixed-point units (5 world units).
pub const CORNER_BLOB_RADIUS: i64 = 5000;

/// Rendering hint: radius for drawing a sample point, in pixels.
pub const POINT_RENDER_RADIUS: u32 = 4;

/// Rendering hint: radius for drawing a centroid, in pixels (2:1 over points).
pub const CENTROID_RENDER_RADIUS: u32 = 8;

} // verus!
