//! Core logic of a small click-to-move character scene.
//!
//! The library drives a single character on a horizontal ground plane:
//! a cursor ray is intersected with the plane to pick a target point,
//! the character walks toward the stored target at a fixed speed, and a
//! locomotion state (idle or walking) selects which animation clip the
//! host should play. Rendering, input sampling, physics and asset
//! loading are left to the embedding program; the library works on
//! plain values.
//!
//! All lengths are held in fixed point: one world unit is `SCALE`
//! thousandths, stored in `i64` components.

use vstd::prelude::*;

pub mod math;
pub mod vec3;
pub mod projector;
pub mod controller;
pub mod camera;
pub mod animation;

verus! {

/// Fixed-point scale: stored values count thousandths of a world unit.
pub const SCALE: i64 = 1000;

/// Directions with squared magnitude below `EPSILON * EPSILON`
/// normalize to the zero vector instead of a unit vector.
pub const EPSILON: i64 = 1;

/// Largest coordinate magnitude of a point in the world (ray origins,
/// click targets): 100_000 world units.
pub const MAX_COORD: i64 = 100_000_000;

/// Largest magnitude of a single frame's movement step.
pub const MAX_STEP: i64 = 10_000_000;

/// Character positions stay within this bound: a step from a point in
/// the world overshoots its target by less than one full step.
pub const POS_LIMIT: i64 = MAX_COORD + MAX_STEP;

/// Largest coordinate magnitude of a free direction vector.
pub const DIR_LIMIT: i64 = 300_000_000;

/// Largest accepted movement speed, in thousandths of a unit per second.
pub const MAX_SPEED: i64 = 1_000_000;

/// Largest accepted frame duration, in thousandths of a second.
pub const MAX_DT: i64 = 10_000;

/// Horizontal distance to the target above which the character walks:
/// 0.1 world units. At exactly this distance it stays idle.
pub const WALK_THRESHOLD: i64 = 100;

/// A configuration fault found while building the scene. These abort
/// startup; no frame-level operation reports them.
#[derive(Clone, Copy, Debug, PartialEq, Eq, Structural)]
pub enum ConfigError {
    /// Movement speed was zero or negative.
    NonPositiveSpeed,
    /// Movement speed was beyond `MAX_SPEED`.
    SpeedOutOfRange,
    /// A spawn position lay outside the world bounds.
    PositionOutOfRange,
    /// The animation table holds fewer clips than the states need.
    MissingAnimation,
}

} // verus!
