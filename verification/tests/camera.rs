use ramses::camera::{camera_follow_position, camera_look_target, camera_start_position};
use ramses::vec3::Vec3;

#[test]
fn camera_spawns_at_fixed_offset() {
    assert_eq!(camera_start_position(), Vec3::new(0, 6000, 14000));
}

#[test]
fn camera_spawns_looking_at_origin() {
    assert_eq!(camera_look_target(), Vec3::new(0, 0, 0));
}

#[test]
fn follow_keeps_spawn_offset_from_player() {
    let player = Vec3::new(100, 200, 300);
    assert_eq!(camera_follow_position(&player), Vec3::new(100, 6200, 14300));
}

#[test]
fn follow_over_origin_matches_spawn() {
    let player = Vec3::new(0, 0, 0);
    assert_eq!(camera_follow_position(&player), camera_start_position());
}
