use ramses::projector::{intersect_ground, Ray};
use ramses::vec3::Vec3;

#[test]
fn ray_from_camera_to_origin_hits_origin() {
    // From the spawn camera position straight toward the origin.
    let ray = Ray::new(Vec3::new(0, 6000, 14000), Vec3::new(0, -6000, -14000));
    let hit = intersect_ground(&ray).expect("ray points at the plane");
    assert_eq!(hit, Vec3::new(0, 0, 0));
}

#[test]
fn hit_point_lies_on_plane() {
    let ray = Ray::new(Vec3::new(1234, 5678, -901), Vec3::new(300, -700, 211));
    let hit = intersect_ground(&ray).expect("downward ray");
    assert_eq!(hit.y, 0);
}

#[test]
fn hit_point_lies_along_ray() {
    // Exact-division case: t = 1000/1000 = 1, point = origin + dir.
    let ray = Ray::new(Vec3::new(0, 1000, 0), Vec3::new(333, -1000, 75));
    let hit = intersect_ground(&ray).expect("downward ray");
    assert_eq!(hit, Vec3::new(333, 0, 75));
}

#[test]
fn hit_point_rounds_toward_zero() {
    // t = 999/2999: the x offset truncates (1000 * 999 / 2999 = 333.1...).
    let ray = Ray::new(Vec3::new(0, 999, 0), Vec3::new(1000, -2999, 0));
    let hit = intersect_ground(&ray).expect("downward ray");
    assert_eq!(hit, Vec3::new(333, 0, 0));
}

#[test]
fn parallel_ray_misses() {
    let ray = Ray::new(Vec3::new(0, 6000, 0), Vec3::new(1000, 0, 0));
    assert_eq!(intersect_ground(&ray), None);
}

#[test]
fn ray_pointing_away_misses() {
    let ray = Ray::new(Vec3::new(0, 6000, 0), Vec3::new(0, 500, 0));
    assert_eq!(intersect_ground(&ray), None);
}

#[test]
fn ray_starting_on_plane_misses() {
    // The intersection distance must be strictly positive.
    let ray = Ray::new(Vec3::new(100, 0, 100), Vec3::new(0, -1000, 0));
    assert_eq!(intersect_ground(&ray), None);
}

#[test]
fn upward_ray_from_below_hits() {
    let ray = Ray::new(Vec3::new(0, -2000, 0), Vec3::new(500, 1000, 0));
    let hit = intersect_ground(&ray).expect("upward ray from below");
    assert_eq!(hit, Vec3::new(1000, 0, 0));
}
