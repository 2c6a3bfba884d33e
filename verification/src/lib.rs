//! Core of a Barnes-Hut gravitational N-body simulation.
//!
//! The library models positions, velocities and masses as exact integers in
//! fixed simulation units, so every operation has a precise mathematical
//! meaning: a region quadtree that admits bodies inclusively on the edges
//! of its requested region and subdivides a padded square beyond it, exact
//! aggregate mass and mass-moment bookkeeping, an approximate force
//! evaluation controlled by a rational accuracy parameter `theta`, and the
//! fixed-timestep stepping loop that rebuilds the tree, integrates motion and
//! republishes diagnostic snapshots each tick.

use vstd::prelude::*;

pub mod boid;
pub mod boundary;
pub mod math;
pub mod quadtree;
pub mod signals;
pub mod simulation;
pub mod traits;
pub mod vector;

verus! {

/// Gravitational constant in simulation units.
pub const GRAVITY: i64 = 1_000_000;

/// Upper bound on the aggregate mass a tree or registry may hold (2^20).
pub const MASS_LIMIT: i64 = 1_048_576;

/// Coordinate magnitude bound for boundaries handled by the tree (2^61).
pub const WORLD_LIMIT: i64 = 2_305_843_009_213_693_952;

/// Coordinate magnitude bound for body positions entering a tick (2^48).
pub const POS_LIMIT: i64 = 281_474_976_710_656;

/// Magnitude bound for body velocities entering a tick (2^40).
pub const VEL_LIMIT: i64 = 1_099_511_627_776;

/// Upper bound on the timestep length of a single tick (2^8).
pub const DT_LIMIT: i64 = 256;

/// Upper bound on the numerator and denominator of `theta` (2^20).
pub const THETA_LIMIT: i64 = 1_048_576;

/// Coordinate magnitude bound for the shared bounding box (2^58).
pub const BOX_LIMIT: i64 = 288_230_376_151_711_744;

} // verus!
