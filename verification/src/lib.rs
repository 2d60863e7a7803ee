//! A minimal 2D sandbox world: rectangles are spawned by primary clicks,
//! one of them can be designated as the controlled entity by secondary
//! clicks, and a per-frame physics step applies momentum, damping and
//! boundary bouncing to every rectangle.
//!
//! Coordinates and momenta are fixed-point integers: one world unit is
//! `SCALE` stored units.

use vstd::prelude::*;

pub mod geom;
pub mod laws;
pub mod num;
pub mod world;

verus! {

/// Fixed-point scale: one world unit is this many stored units.
pub const SCALE: i64 = 1000;

/// Hard cap on momentum magnitude right after an impulse: 10 world units.
pub const MOMENTUM_CAP: i64 = 10 * SCALE;

/// Gain factor applied to a directional impulse.
pub const IMPULSE_GAIN: i64 = 5;

/// Right edge of the world: 800 world units.
pub const WORLD_MAX_X: i64 = 800 * SCALE;

/// Bottom edge of the world: 600 world units.
pub const WORLD_MAX_Y: i64 = 600 * SCALE;

/// Default side length of newly spawned entities: 50 world units.
pub const DEFAULT_SPAWN: i64 = 50 * SCALE;

/// Largest admissible spawn-size component, so that scaled impulses
/// stay well inside the `i64` range.
pub const MAX_SPAWN: i64 = 100_000_000;

/// Bound on a momentum component between impulse and clamp: the cap plus
/// the gain times the largest spawn size, with room to spare.
pub const MAX_PRE_CLAMP: i64 = 6 * MAX_SPAWN;

} // verus!
