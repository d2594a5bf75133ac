//! A fixed-point 2D particle simulation: a swarm of particles under gravity
//! with damped boundary bounces, a cyclic hue animation, an interactive radial
//! impulse, and the data shaping for two rendering backends.
//!
//! All quantities are held in fixed-point units: `SCALE` units equal one
//! pixel (for positions and velocities) or one degree (for hues).

use vstd::prelude::*;

pub mod color;
pub mod math;
pub mod particle;
pub mod sample;
pub mod system;

verus! {

/// Fixed-point units per pixel (and per hue degree).
pub const SCALE: i64 = 10_000;

/// Gravity added to the vertical velocity each tick (0.0002 px/frame).
pub const GRAVITY: i64 = 2;

/// Numerator of the damping a bounce applies to the reflected velocity (0.85).
pub const BOUNCE_NUM: i64 = 85;

/// Numerator of the friction the floor applies to the horizontal velocity (0.98).
pub const FRICTION_NUM: i64 = 98;

/// Denominator of the bounce and friction fractions.
pub const FRAC_DEN: i64 = 100;

/// Added to the hue each tick (0.3 degrees).
pub const HUE_STEP: i64 = 3_000;

/// One full turn of the hue wheel (360 degrees).
pub const HUE_WHEEL: i64 = 3_600_000;

/// Peak magnitude of the radial impulse (8.0 px/frame).
pub const EXPLOSION_FORCE: i64 = 80_000;

/// Radius of the radial impulse (200.0 px); farther particles are untouched.
pub const EXPLOSION_RADIUS: i64 = 2_000_000;

/// Smallest launch speed (1.0 px/frame).
pub const SPEED_MIN: i64 = 10_000;

/// Width of the half-open launch speed range (speeds lie in [1.0, 3.0)).
pub const SPEED_SPAN: i64 = 20_000;

/// Constant upward bias added to the launch vertical velocity (3.0 px/frame).
pub const LAUNCH_LIFT: i64 = 30_000;

/// Largest velocity magnitude a freshly launched particle can have.
pub const LAUNCH_VEL_MAX: i64 = 60_000;

/// How far, in units, fixed-point truncation can move a launch speed off the
/// drawn value.
pub const LAUNCH_SPEED_SLACK: i64 = 30;

/// Largest surface side length, in pixels, the fixed-point model accepts.
pub const MAX_DIM: u32 = 100_000;

/// Largest scaled surface side length (`MAX_DIM` pixels, scaled).
pub const DIM_LIMIT: i64 = 1_000_000_000;

/// Largest particle population the attribute buffers accept.
pub const MAX_COUNT: usize = 100_000_000;

/// A velocity magnitude no reachable state exceeds; machine arithmetic in the
/// tick and impulse steps is shown safe below it.
pub const VEL_LIMIT: i64 = 400_000_000_000_000;

} // verus!
