//! Verified core of a motorized pan/tilt sensor mount: a line-oriented
//! command protocol, an acceleration-limited motion controller, and a
//! fixed-size frame buffer for raw video export.
//!
//! Angles are fixed-point millidegrees (1/1000 of a degree) held in `i64`,
//! velocities are millidegrees per simulation tick, and accelerations are
//! millidegrees per tick squared. One tick is one fixed-rate simulation
//! step; the surrounding application drives ticks at a fixed rate.

pub mod angle;
pub mod numtext;
pub mod protocol;
pub mod radar;
pub mod servo;
pub mod stream;

use vstd::prelude::*;

verus! {

/// Millidegrees in a full turn.
pub const FULL_TURN: i64 = 360_000;

/// Millidegrees in a half turn.
pub const HALF_TURN: i64 = 180_000;

/// Snap window: a difference smaller than this (0.01 degrees) counts as
/// arrival at the target.
pub const EPSILON: i64 = 10;

/// Largest commandable target magnitude, in millidegrees.
pub const MAX_TARGET: i64 = 360_000_000;

/// Largest configurable per-tick velocity magnitude, in millidegrees per tick.
pub const MAX_VELOCITY_LIMIT: i64 = 100_000;

} // verus!
