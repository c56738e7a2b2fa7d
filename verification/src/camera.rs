//! Camera placement. The camera starts at a fixed offset from the
//! origin, looking at the origin; an optional follow mode keeps the
//! same offset from the character instead.

use vstd::prelude::*;
use crate::{POS_LIMIT, SCALE};
use crate::vec3::Vec3;

verus! {

/// Height of the camera above its focus, in world units.
pub const CAMERA_Y_OFFSET: i64 = 6;

/// Distance of the camera behind its focus, in world units.
pub const CAMERA_Z_OFFSET: i64 = 14;

/// Where the camera is spawned: the fixed offset from the world
/// origin.
pub fn camera_start_position() -> (r: Vec3)
    ensures
        r == (Vec3 {
            x: 0,
            y: (CAMERA_Y_OFFSET * SCALE) as i64,
            z: (CAMERA_Z_OFFSET * SCALE) as i64,
        }),
{
    Vec3 { x: 0, y: CAMERA_Y_OFFSET * SCALE, z: CAMERA_Z_OFFSET * SCALE }
}

/// What the camera looks at after spawning: the world origin.
pub fn camera_look_target() -> (r: Vec3)
    ensures
        r == Vec3::zero_spec(),
{
    Vec3 { x: 0, y: 0, z: 0 }
}

/// Follow mode: the camera keeps its spawn offset relative to the
/// character's position.
pub fn camera_follow_position(player: &Vec3) -> (r: Vec3)
    requires
        player.bounded(POS_LIMIT as int),
    ensures
        r.x == player.x,
        r.y == player.y + CAMERA_Y_OFFSET * SCALE,
        r.z == player.z + CAMERA_Z_OFFSET * SCALE,
{
    Vec3 {
        x: player.x,
        y: player.y + CAMERA_Y_OFFSET * SCALE,
        z: player.z + CAMERA_Z_OFFSET * SCALE,
    }
}

} // verus!
