use ramses::controller::{Character, ClickEvent, LocomotionState};
use ramses::vec3::Vec3;
use ramses::{ConfigError, MAX_SPEED, POS_LIMIT};

fn spawn(x: i64, y: i64, z: i64, speed: i64) -> Character {
    Character::new(Vec3::new(x, y, z), speed).expect("valid character")
}

#[test]
fn scenario_walk_from_origin() {
    // Character at the origin, click at (5, 0, 0), speed 2.5, dt 1 s:
    // one frame moves it to (2.5, 0, 0) and it walks.
    let mut c = spawn(0, 0, 0, 2500);
    c.frame_update(ClickEvent::Hit(Vec3::new(5000, 0, 0)), 1000);
    assert_eq!(c.position, Vec3::new(2500, 0, 0));
    assert_eq!(c.state, LocomotionState::Walking);
    assert_eq!(c.target, Vec3::new(5000, 0, 0));
}

#[test]
fn scenario_close_enough_is_idle() {
    // 0.05 units from the target is inside the 0.1 threshold: no
    // movement, idle.
    let mut c = spawn(4950, 0, 0, 2500);
    c.frame_update(ClickEvent::Hit(Vec3::new(5000, 0, 0)), 1000);
    assert_eq!(c.position, Vec3::new(4950, 0, 0));
    assert_eq!(c.state, LocomotionState::Idle);
}

#[test]
fn scenario_missed_projection_changes_nothing() {
    // A click frame whose projection failed (cursor outside the
    // window) leaves target, position and state untouched.
    let mut c = spawn(0, 0, 0, 2500);
    c.frame_update(ClickEvent::Hit(Vec3::new(5000, 0, 0)), 100);
    let before = c;
    c.frame_update(ClickEvent::Miss, 1000);
    assert_eq!(c, before);
}

#[test]
fn no_click_keeps_walking_to_stored_target() {
    let mut c = spawn(0, 0, 0, 2500);
    c.frame_update(ClickEvent::Hit(Vec3::new(5000, 0, 0)), 1000);
    assert_eq!(c.position, Vec3::new(2500, 0, 0));
    c.frame_update(ClickEvent::NoClick, 1000);
    assert_eq!(c.position, Vec3::new(5000, 0, 0));
    assert_eq!(c.state, LocomotionState::Walking);
    c.frame_update(ClickEvent::NoClick, 1000);
    assert_eq!(c.position, Vec3::new(5000, 0, 0));
    assert_eq!(c.state, LocomotionState::Idle);
}

#[test]
fn threshold_just_above_walks() {
    // |target - position| = 0.101 > 0.1: walking.
    let mut c = spawn(0, 0, 0, 2500);
    c.frame_update(ClickEvent::Hit(Vec3::new(101, 0, 0)), 0);
    assert_eq!(c.state, LocomotionState::Walking);
}

#[test]
fn threshold_exact_is_idle() {
    // |target - position| = 0.1 exactly: idle, position unchanged.
    let mut c = spawn(0, 0, 0, 2500);
    c.frame_update(ClickEvent::Hit(Vec3::new(100, 0, 0)), 1000);
    assert_eq!(c.state, LocomotionState::Idle);
    assert_eq!(c.position, Vec3::new(0, 0, 0));
}

#[test]
fn click_sets_facing_toward_target() {
    let mut c = spawn(0, 0, 0, 2500);
    c.frame_update(ClickEvent::Hit(Vec3::new(0, 0, -5000)), 0);
    assert_eq!(c.facing, Vec3::new(0, 0, -1000));
}

#[test]
fn facing_only_updates_on_click() {
    let mut c = spawn(0, 0, 0, 2500);
    c.frame_update(ClickEvent::Hit(Vec3::new(5000, 0, 0)), 1000);
    let facing = c.facing;
    c.frame_update(ClickEvent::NoClick, 1000);
    assert_eq!(c.facing, facing);
}

#[test]
fn controller_never_moves_vertically() {
    // Spawned two units up (physics owns the vertical axis): walking
    // toward a ground target keeps the height.
    let mut c = spawn(0, 2000, 0, 2500);
    c.frame_update(ClickEvent::Hit(Vec3::new(5000, 0, 0)), 1000);
    assert_eq!(c.position, Vec3::new(2500, 2000, 0));
}

#[test]
fn movement_step_is_bounded_by_speed_times_dt() {
    // dt = 0.4 s at speed 2.5: the step is exactly 1 unit toward a
    // distant target, never more.
    let mut c = spawn(0, 0, 0, 2500);
    c.frame_update(ClickEvent::Hit(Vec3::new(50_000, 0, 0)), 400);
    let dx = c.position.x as f64;
    let dz = c.position.z as f64;
    assert!((dx * dx + dz * dz).sqrt() <= 1000.0);
    assert_eq!(c.position, Vec3::new(1000, 0, 0));
}

#[test]
fn diagonal_step_is_bounded() {
    let mut c = spawn(0, 0, 0, 2500);
    c.frame_update(ClickEvent::Hit(Vec3::new(7000, 0, 9000)), 1000);
    let dx = c.position.x as f64;
    let dz = c.position.z as f64;
    let step = 2500.0f64;
    assert!((dx * dx + dz * dz).sqrt() <= step);
}

#[test]
fn out_of_range_hit_is_skipped() {
    let mut c = spawn(0, 0, 0, 2500);
    let before = c;
    c.frame_update(ClickEvent::Hit(Vec3::new(200_000_000, 0, 0)), 1000);
    assert_eq!(c, before);
}

#[test]
fn hold_walks_toward_cursor() {
    let mut c = spawn(0, 0, 0, 2500);
    c.frame_update_hold(Some(Vec3::new(5000, 0, 0)), true, 1000);
    assert_eq!(c.facing, Vec3::new(1000, 0, 0));
    assert_eq!(c.position, Vec3::new(2500, 0, 0));
    assert_eq!(c.state, LocomotionState::Walking);
}

#[test]
fn hold_without_key_only_faces() {
    let mut c = spawn(0, 0, 0, 2500);
    c.frame_update_hold(Some(Vec3::new(0, 0, 5000)), false, 1000);
    assert_eq!(c.facing, Vec3::new(0, 0, 1000));
    assert_eq!(c.position, Vec3::new(0, 0, 0));
    assert_eq!(c.state, LocomotionState::Idle);
}

#[test]
fn hold_with_missing_cursor_changes_nothing() {
    let mut c = spawn(0, 0, 0, 2500);
    c.frame_update_hold(Some(Vec3::new(5000, 0, 0)), true, 400);
    let before = c;
    c.frame_update_hold(None, true, 1000);
    assert_eq!(c, before);
}

#[test]
fn hold_on_own_position_yields_zero_direction() {
    // The cursor sits on the character: normalize-or-zero gives the
    // exact zero vector, so the held frame moves nowhere.
    let mut c = spawn(0, 0, 0, 2500);
    c.frame_update_hold(Some(Vec3::new(0, 0, 0)), true, 1000);
    assert_eq!(c.facing, Vec3::new(0, 0, 0));
    assert_eq!(c.position, Vec3::new(0, 0, 0));
    assert_eq!(c.state, LocomotionState::Walking);
}

#[test]
fn hold_leaves_click_target_alone() {
    let mut c = spawn(0, 0, 0, 2500);
    c.frame_update(ClickEvent::Hit(Vec3::new(5000, 0, 0)), 0);
    c.frame_update_hold(Some(Vec3::new(-3000, 0, 0)), true, 400);
    assert_eq!(c.target, Vec3::new(5000, 0, 0));
}

#[test]
fn hold_step_is_bounded_by_speed_times_dt() {
    let mut c = spawn(0, 0, 0, 2500);
    c.frame_update_hold(Some(Vec3::new(7000, 0, 9000)), true, 1000);
    let dx = c.position.x as f64;
    let dz = c.position.z as f64;
    assert!((dx * dx + dz * dz).sqrt() <= 2500.0);
    assert!(c.position.x > 0 && c.position.z > 0);
}

#[test]
fn new_rejects_zero_speed() {
    let r = Character::new(Vec3::new(0, 0, 0), 0);
    assert_eq!(r, Err(ConfigError::NonPositiveSpeed));
}

#[test]
fn new_rejects_negative_speed() {
    let r = Character::new(Vec3::new(0, 0, 0), -2500);
    assert_eq!(r, Err(ConfigError::NonPositiveSpeed));
}

#[test]
fn new_rejects_oversized_speed() {
    let r = Character::new(Vec3::new(0, 0, 0), MAX_SPEED + 1);
    assert_eq!(r, Err(ConfigError::SpeedOutOfRange));
}

#[test]
fn new_rejects_far_position() {
    let r = Character::new(Vec3::new(POS_LIMIT + 1, 0, 0), 2500);
    assert_eq!(r, Err(ConfigError::PositionOutOfRange));
}

#[test]
fn new_character_starts_idle() {
    let c = spawn(0, 2000, 0, 2500);
    assert_eq!(c.state, LocomotionState::Idle);
    assert_eq!(c.target, Vec3::new(0, 0, 0));
    assert_eq!(c.facing, Vec3::new(0, 0, 0));
    assert_eq!(c.speed, 2500);
}
