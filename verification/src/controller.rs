//! The click-to-move character controller. A left click stores a
//! target point on the ground plane and turns the character toward
//! it; every frame the character steps toward the stored target at
//! its speed, scaled by the frame duration, and reports whether it is
//! idle or walking. Movement is purely horizontal: the vertical
//! position belongs to the host's physics.

use vstd::prelude::*;
use vstd::math::abs;
use crate::{
    ConfigError, DIR_LIMIT, MAX_COORD, MAX_DT, MAX_SPEED, MAX_STEP, POS_LIMIT, SCALE,
    WALK_THRESHOLD,
};
use crate::math::{
    isqrt_ceil, isqrt_ceil_spec, lemma_abs_le_of_sq_le, lemma_scaled_div_bounds,
    lemma_scaled_div_zero, lemma_scaled_vector_sq_bound, lemma_square_bound, scale_toward,
    scaled_div,
};
use crate::vec3::{normalize_or_zero, normalize_spec, Vec3};
use vstd::arithmetic::div_mod::{lemma_div_is_ordered, lemma_div_pos_is_pos};

verus! {

/// Which animation family the character needs this frame.
#[derive(Clone, Copy, Debug, PartialEq, Eq, Structural)]
pub enum LocomotionState {
    Idle,
    Walking,
}

/// The one controllable character: its position, movement speed in
/// thousandths of a unit per second, stored click target, facing
/// direction (a near-unit vector, or zero before the first click),
/// and current locomotion state.
#[derive(Clone, Copy, Debug, PartialEq, Eq, Structural)]
pub struct Character {
    pub position: Vec3,
    pub speed: i64,
    pub target: Vec3,
    pub facing: Vec3,
    pub state: LocomotionState,
}

/// What the input and the projector reported for this frame: no left
/// click at all, a click projected to a world point on the ground, or
/// a click whose projection failed (cursor outside the window, ray
/// missing the plane, degenerate camera).
#[derive(Clone, Copy, Debug, PartialEq, Eq, Structural)]
pub enum ClickEvent {
    NoClick,
    Hit(Vec3),
    Miss,
}

/// A click is taken only when it hit the ground within the world
/// bounds.
pub open spec fn click_accepted(click: ClickEvent) -> bool {
    match click {
        ClickEvent::Hit(p) => p.bounded(MAX_COORD as int),
        _ => false,
    }
}

/// A clicked frame whose projection failed (or landed out of range)
/// is skipped whole: the controller neither retargets nor moves.
pub open spec fn frame_skipped(click: ClickEvent) -> bool {
    match click {
        ClickEvent::NoClick => false,
        ClickEvent::Hit(p) => !p.bounded(MAX_COORD as int),
        ClickEvent::Miss => true,
    }
}

/// The horizontal vector from `from` to `to`: the difference with its
/// vertical component zeroed.
pub open spec fn horiz_to(from: Vec3, to: Vec3) -> Vec3 {
    Vec3 { x: (to.x - from.x) as i64, y: 0, z: (to.z - from.z) as i64 }
}

/// The length of one frame's step: speed times elapsed seconds, both
/// in fixed point, truncated to the grid.
pub open spec fn step_len(speed: int, dt: int) -> int {
    speed * dt / (SCALE as int)
}

impl Character {
    /// Positions stay within `POS_LIMIT`, targets within the world,
    /// the speed within its configured range, and the facing vector
    /// within one unit length.
    pub open spec fn wf(self) -> bool {
        &&& self.position.bounded(POS_LIMIT as int)
        &&& self.target.bounded(MAX_COORD as int)
        &&& 0 < self.speed <= MAX_SPEED
        &&& self.facing.bounded(SCALE as int)
    }

    /// The horizontal vector from the character to its target.
    pub open spec fn walk_dir(self) -> Vec3 {
        horiz_to(self.position, self.target)
    }

    /// Walking exactly when the horizontal distance to the target
    /// exceeds `WALK_THRESHOLD` (0.1 units); at or below it, idle.
    pub open spec fn is_walking(self) -> bool {
        self.walk_dir().norm_sq() > WALK_THRESHOLD * WALK_THRESHOLD
    }

    /// What `new` returns: speed must be strictly positive and within
    /// range, the spawn position within the world limits; the
    /// character then starts idle, facing nowhere, with its target at
    /// the origin.
    pub open spec fn new_spec(position: Vec3, speed: i64) -> Result<Character, ConfigError> {
        if speed <= 0 {
            Err(ConfigError::NonPositiveSpeed)
        } else if speed > MAX_SPEED {
            Err(ConfigError::SpeedOutOfRange)
        } else if !position.bounded(POS_LIMIT as int) {
            Err(ConfigError::PositionOutOfRange)
        } else {
            Ok(
                Character {
                    position,
                    speed,
                    target: Vec3::zero_spec(),
                    facing: Vec3::zero_spec(),
                    state: LocomotionState::Idle,
                },
            )
        }
    }

    /// Build the character, rejecting a non-positive or oversized
    /// speed and an out-of-range spawn position at construction.
    pub fn new(position: Vec3, speed: i64) -> (r: Result<Character, ConfigError>)
        ensures
            r == Character::new_spec(position, speed),
            r is Ok ==> r->Ok_0.wf(),
    {
        if speed <= 0 {
            Err(ConfigError::NonPositiveSpeed)
        } else if speed > MAX_SPEED {
            Err(ConfigError::SpeedOutOfRange)
        } else if !position.in_bounds(POS_LIMIT) {
            Err(ConfigError::PositionOutOfRange)
        } else {
            Ok(
                Character {
                    position,
                    speed,
                    target: Vec3::zero(),
                    facing: Vec3::zero(),
                    state: LocomotionState::Idle,
                },
            )
        }
    }

    /// The click stores a new target and turns the character toward
    /// it; its state, speed and position are untouched.
    pub open spec fn with_click(self, p: Vec3) -> Character {
        Character {
            position: self.position,
            speed: self.speed,
            target: p,
            facing: normalize_spec(horiz_to(self.position, p)),
            state: self.state,
        }
    }

    /// The character after the click phase: an accepted click stores
    /// the new target and turns the character toward it; anything
    /// else changes nothing.
    pub open spec fn after_click(self, click: ClickEvent) -> Character {
        match click {
            ClickEvent::Hit(p) => if p.bounded(MAX_COORD as int) {
                self.with_click(p)
            } else {
                self
            },
            _ => self,
        }
    }

    /// Where one frame's step puts the character: each horizontal
    /// component moves by the direction component scaled by
    /// `step / distance`, rounded toward zero; the vertical component
    /// never moves.
    pub open spec fn stepped_position(self, dt: int) -> Vec3 {
        let d = self.walk_dir();
        let l = isqrt_ceil_spec(d.norm_sq());
        let s = step_len(self.speed as int, dt);
        Vec3 {
            x: (self.position.x + scaled_div(d.x as int, s, l)) as i64,
            y: self.position.y,
            z: (self.position.z + scaled_div(d.z as int, s, l)) as i64,
        }
    }

    /// The movement phase: walk toward the target when beyond the
    /// threshold, else stand still.
    pub open spec fn advance(self, dt: int) -> Character {
        if self.is_walking() {
            Character {
                position: self.stepped_position(dt),
                speed: self.speed,
                target: self.target,
                facing: self.facing,
                state: LocomotionState::Walking,
            }
        } else {
            Character {
                position: self.position,
                speed: self.speed,
                target: self.target,
                facing: self.facing,
                state: LocomotionState::Idle,
            }
        }
    }

    /// One whole frame: the click phase, then the movement phase; a
    /// clicked frame whose projection failed changes nothing at all.
    pub open spec fn frame_next(self, click: ClickEvent, dt: int) -> Character {
        if frame_skipped(click) {
            self
        } else {
            self.after_click(click).advance(dt)
        }
    }

    /// Run one simulation frame. `click` is what this frame's input
    /// and projection reported; `dt` is the frame duration in
    /// thousandths of a second.
    ///
    /// The postconditions pin the frame exactly, and state the frame
    /// laws besides: the step never exceeds `speed * dt`, walking is
    /// decided by the 0.1-unit threshold, a clicked frame without a
    /// ground point changes nothing, and the controller never moves
    /// the character vertically.
    pub fn frame_update(&mut self, click: ClickEvent, dt: i64)
        requires
            old(self).wf(),
            0 <= dt <= MAX_DT,
        ensures
            *final(self) == old(self).frame_next(click, dt as int),
            final(self).wf(),
            final(self).speed == old(self).speed,
            final(self).position.y == old(self).position.y,
            frame_skipped(click) ==> *final(self) == *old(self),
            !frame_skipped(click) ==> ((final(self).state == LocomotionState::Walking)
                <==> old(self).after_click(click).is_walking()),
            !click_accepted(click) ==> final(self).target == old(self).target
                && final(self).facing == old(self).facing,
            ({
                let s = step_len(old(self).speed as int, dt as int);
                let mx = final(self).position.x - old(self).position.x;
                let my = final(self).position.y - old(self).position.y;
                let mz = final(self).position.z - old(self).position.z;
                mx * mx + my * my + mz * mz <= s * s
            }),
    {
        let mut do_move: bool = true;
        match click {
            ClickEvent::NoClick => {},
            ClickEvent::Hit(p) => {
                if p.in_bounds(MAX_COORD) {
                    let d = Vec3 {
                        x: p.x - self.position.x,
                        y: 0,
                        z: p.z - self.position.z,
                    };
                    self.facing = normalize_or_zero(&d);
                    self.target = p;
                    proof {
                        assert(d == horiz_to(old(self).position, p));
                    }
                } else {
                    do_move = false;
                }
            }
            ClickEvent::Miss => {
                do_move = false;
            },
        }
        if !do_move {
            proof {
                lemma_step_sq_nonneg(old(self).speed as int, dt as int);
            }
            return;
        }
        proof {
            assert(*self == old(self).after_click(click));
        }
        let ghost mid: Character = *self;
        let dx = self.target.x - self.position.x;
        let dz = self.target.z - self.position.z;
        proof {
            lemma_square_bound(dx as int, MAX_COORD as int + POS_LIMIT as int);
            lemma_square_bound(dz as int, MAX_COORD as int + POS_LIMIT as int);
            assert(mid.walk_dir() == (Vec3 { x: dx, y: 0, z: dz }));
        }
        let dist_sq = dx * dx + dz * dz;
        proof {
            assert(mid.walk_dir().norm_sq() == dist_sq);
        }
        if dist_sq > WALK_THRESHOLD * WALK_THRESHOLD {
            let lu = isqrt_ceil(dist_sq as u64);
            let l = lu as i64;
            proof {
                assert(l > 0) by (nonlinear_arith)
                    requires
                        (l as int) * (l as int) >= dist_sq as int,
                        l >= 0,
                        dist_sq > 0;
            }
            proof {
                assert(0 <= self.speed * dt <= MAX_SPEED as int * MAX_DT as int)
                    by (nonlinear_arith)
                    requires
                        0 < self.speed <= MAX_SPEED,
                        0 <= dt <= MAX_DT;
            }
            let step = (self.speed * dt) / SCALE;
            proof {
                lemma_div_pos_is_pos(self.speed as int * dt as int, SCALE as int);
                lemma_div_is_ordered(
                    self.speed as int * dt as int,
                    MAX_SPEED as int * MAX_DT as int,
                    SCALE as int,
                );
                assert(step == step_len(mid.speed as int, dt as int));
                assert(0 <= step <= MAX_STEP);
                assert(abs(dx as int) * step <= i64::MAX) by (nonlinear_arith)
                    requires
                        0 <= abs(dx as int) <= MAX_COORD as int + POS_LIMIT as int,
                        0 <= step <= MAX_STEP,
                        MAX_COORD as int + POS_LIMIT as int == 210_000_000,
                        MAX_STEP as int == 10_000_000;
                assert(abs(dz as int) * step <= i64::MAX) by (nonlinear_arith)
                    requires
                        0 <= abs(dz as int) <= MAX_COORD as int + POS_LIMIT as int,
                        0 <= step <= MAX_STEP,
                        MAX_COORD as int + POS_LIMIT as int == 210_000_000,
                        MAX_STEP as int == 10_000_000;
            }
            let mx = scale_toward(dx, step, l);
            let mz = scale_toward(dz, step, l);
            proof {
                lemma_abs_le_of_sq_le(dx as int, l as int);
                lemma_abs_le_of_sq_le(dz as int, l as int);
                lemma_step_stays_bounded(
                    mid.position.x as int, mid.target.x as int, step as int, l as int, mx as int,
                );
                lemma_step_stays_bounded(
                    mid.position.z as int, mid.target.z as int, step as int, l as int, mz as int,
                );
                lemma_scaled_div_zero(step as int, l as int);
                lemma_scaled_vector_sq_bound(
                    dx as int, 0, dz as int, step as int, l as int, mx as int, 0, mz as int,
                );
            }
            self.position = Vec3 {
                x: self.position.x + mx,
                y: self.position.y,
                z: self.position.z + mz,
            };
            self.state = LocomotionState::Walking;
            proof {
                assert(self.position == mid.stepped_position(dt as int));
            }
        } else {
            self.state = LocomotionState::Idle;
            proof {
                lemma_step_sq_nonneg(mid.speed as int, dt as int);
            }
        }
    }
}

/// A cursor point is usable for hold-to-move steering only when it
/// lies within the world bounds.
pub open spec fn cursor_accepted(cursor: Option<Vec3>) -> bool {
    match cursor {
        Some(p) => p.bounded(MAX_COORD as int),
        None => false,
    }
}

impl Character {
    /// Hold-to-move facing: always toward the cursor's ground point,
    /// vertical component dropped.
    pub open spec fn hold_facing(self, p: Vec3) -> Vec3 {
        normalize_spec(horiz_to(self.position, p))
    }

    /// Where one held frame puts the character: the near-unit facing
    /// vector scaled by `step / SCALE`, applied horizontally; a step
    /// that would leave the world is not taken.
    pub open spec fn hold_stepped(self, f: Vec3, dt: int) -> Vec3 {
        let s = step_len(self.speed as int, dt);
        let np = Vec3 {
            x: (self.position.x + scaled_div(f.x as int, s, SCALE as int)) as i64,
            y: self.position.y,
            z: (self.position.z + scaled_div(f.z as int, s, SCALE as int)) as i64,
        };
        if np.bounded(POS_LIMIT as int) {
            np
        } else {
            self.position
        }
    }

    /// One hold-to-move frame: with a usable cursor point the facing
    /// turns toward it whether or not the key is held; holding the
    /// key walks that way, releasing it idles in place. Without a
    /// usable point the frame changes nothing.
    pub open spec fn hold_next(self, cursor: Option<Vec3>, held: bool, dt: int) -> Character {
        if cursor_accepted(cursor) {
            let f = self.hold_facing(cursor->0);
            if held {
                Character {
                    position: self.hold_stepped(f, dt),
                    speed: self.speed,
                    target: self.target,
                    facing: f,
                    state: LocomotionState::Walking,
                }
            } else {
                Character {
                    position: self.position,
                    speed: self.speed,
                    target: self.target,
                    facing: f,
                    state: LocomotionState::Idle,
                }
            }
        } else {
            self
        }
    }

    /// Run one frame of the hold-to-move scheme. `cursor` is the
    /// projected ground point under the cursor (`None` when the
    /// cursor is outside the window or its ray misses the ground);
    /// `forward_held` says whether the movement key is down.
    ///
    /// Facing follows the cursor every frame, even when idle; the
    /// stored click target is not touched; the step never exceeds
    /// `speed * dt`; the character never moves vertically.
    pub fn frame_update_hold(&mut self, cursor: Option<Vec3>, forward_held: bool, dt: i64)
        requires
            old(self).wf(),
            0 <= dt <= MAX_DT,
        ensures
            *final(self) == old(self).hold_next(cursor, forward_held, dt as int),
            final(self).wf(),
            final(self).speed == old(self).speed,
            final(self).target == old(self).target,
            final(self).position.y == old(self).position.y,
            !cursor_accepted(cursor) ==> *final(self) == *old(self),
            cursor_accepted(cursor) ==> ((final(self).state == LocomotionState::Walking)
                <==> forward_held),
            !forward_held ==> final(self).position == old(self).position,
            ({
                let s = step_len(old(self).speed as int, dt as int);
                let mx = final(self).position.x - old(self).position.x;
                let my = final(self).position.y - old(self).position.y;
                let mz = final(self).position.z - old(self).position.z;
                mx * mx + my * my + mz * mz <= s * s
            }),
    {
        match cursor {
            Some(p) => {
                if p.in_bounds(MAX_COORD) {
                    let d = Vec3 {
                        x: p.x - self.position.x,
                        y: 0,
                        z: p.z - self.position.z,
                    };
                    let f = normalize_or_zero(&d);
                    proof {
                        assert(d == horiz_to(old(self).position, p));
                    }
                    self.facing = f;
                    if forward_held {
                        proof {
                            assert(0 <= self.speed * dt <= MAX_SPEED as int * MAX_DT as int)
                                by (nonlinear_arith)
                                requires
                                    0 < self.speed <= MAX_SPEED,
                                    0 <= dt <= MAX_DT;
                        }
                        let step = (self.speed * dt) / SCALE;
                        proof {
                            lemma_div_pos_is_pos(self.speed as int * dt as int, SCALE as int);
                            lemma_div_is_ordered(
                                self.speed as int * dt as int,
                                MAX_SPEED as int * MAX_DT as int,
                                SCALE as int,
                            );
                            assert(step == step_len(old(self).speed as int, dt as int));
                            assert(abs(f.x as int) * step <= i64::MAX) by (nonlinear_arith)
                                requires
                                    0 <= abs(f.x as int) <= SCALE as int,
                                    0 <= step <= MAX_STEP,
                                    SCALE as int == 1000,
                                    MAX_STEP as int == 10_000_000;
                            assert(abs(f.z as int) * step <= i64::MAX) by (nonlinear_arith)
                                requires
                                    0 <= abs(f.z as int) <= SCALE as int,
                                    0 <= step <= MAX_STEP,
                                    SCALE as int == 1000,
                                    MAX_STEP as int == 10_000_000;
                        }
                        let mx = scale_toward(f.x, step, SCALE);
                        let mz = scale_toward(f.z, step, SCALE);
                        proof {
                            lemma_scaled_div_bounds(f.x as int, step as int, SCALE as int);
                            lemma_scaled_div_bounds(f.z as int, step as int, SCALE as int);
                            lemma_scaled_div_zero(step as int, SCALE as int);
                            assert(f.y * f.y >= 0) by (nonlinear_arith);
                            assert(f.x * f.x + 0 * 0 + f.z * f.z <= SCALE as int * SCALE as int);
                            lemma_scaled_vector_sq_bound(
                                f.x as int, 0, f.z as int, step as int, SCALE as int,
                                mx as int, 0, mz as int,
                            );
                        }
                        let np = Vec3 {
                            x: self.position.x + mx,
                            y: self.position.y,
                            z: self.position.z + mz,
                        };
                        if np.in_bounds(POS_LIMIT) {
                            self.position = np;
                        }
                        self.state = LocomotionState::Walking;
                    } else {
                        self.state = LocomotionState::Idle;
                        proof {
                            lemma_step_sq_nonneg(old(self).speed as int, dt as int);
                        }
                    }
                } else {
                    proof {
                        lemma_step_sq_nonneg(old(self).speed as int, dt as int);
                    }
                }
            }
            None => {
                proof {
                    lemma_step_sq_nonneg(old(self).speed as int, dt as int);
                }
            },
        }
    }
}

/// The squared step length is never negative (used by the frames that
/// do not move).
proof fn lemma_step_sq_nonneg(speed: int, dt: int)
    requires
        0 < speed,
        0 <= dt,
    ensures
        0 <= step_len(speed, dt),
        0 <= step_len(speed, dt) * step_len(speed, dt),
{
    assert(0 <= speed * dt) by (nonlinear_arith)
        requires 0 < speed, 0 <= dt;
    lemma_div_pos_is_pos(speed * dt, SCALE as int);
    let s = step_len(speed, dt);
    assert(0 <= s * s) by (nonlinear_arith)
        requires 0 <= s;
}

/// One frame's step keeps the component within the position bound:
/// a short step stays between the position and the target, and a long
/// step overshoots the target by less than the step length.
pub proof fn lemma_step_stays_bounded(p: int, t: int, s: int, l: int, m: int)
    requires
        abs(p) <= POS_LIMIT as int,
        abs(t) <= MAX_COORD as int,
        0 <= s <= MAX_STEP as int,
        0 < l,
        abs(t - p) <= l,
        m == scaled_div(t - p, s, l),
    ensures
        abs(p + m) <= POS_LIMIT as int,
        abs(m) <= s,
{
    let d = t - p;
    lemma_scaled_div_bounds(d, s, l);
    assert(abs(m) <= s);
    if s <= l {
        if d >= 0 {
            assert(0 <= m <= d);
        } else {
            assert(d <= m <= 0);
        }
    } else {
        if d >= 0 {
            assert(0 <= m <= s);
            assert(0 <= d <= l);
        } else {
            assert(-s <= m <= 0);
            assert(-l <= d <= 0);
        }
    }
}

} // verus!
