use ramses::math::{isqrt_ceil, scale_toward};
use ramses::vec3::{normalize_or_zero, Vec3};

#[test]
fn normalize_zero_vector_is_zero() {
    let v = Vec3::new(0, 0, 0);
    assert_eq!(normalize_or_zero(&v), Vec3::new(0, 0, 0));
}

#[test]
fn normalize_axis_vector_is_exact_unit() {
    let v = Vec3::new(0, 0, -7000);
    assert_eq!(normalize_or_zero(&v), Vec3::new(0, 0, -1000));
}

#[test]
fn normalize_pythagorean_triple_is_exact() {
    let v = Vec3::new(3000, 0, 4000);
    let r = normalize_or_zero(&v);
    assert_eq!(r, Vec3::new(600, 0, 800));
    assert_eq!(r.x * r.x + r.y * r.y + r.z * r.z, 1_000_000);
}

#[test]
fn normalize_small_vector_rounds_down() {
    // (0.001, 0.001, 0.001): magnitude-squared 3, root rounds up to 2.
    let v = Vec3::new(1, 1, 1);
    assert_eq!(normalize_or_zero(&v), Vec3::new(500, 500, 500));
}

#[test]
fn normalize_never_exceeds_unit_length() {
    let v = Vec3::new(-123_456, 789, 654_321);
    let r = normalize_or_zero(&v);
    assert!(r.x * r.x + r.y * r.y + r.z * r.z <= 1_000_000);
}

#[test]
fn normalize_of_unit_scale_vector_is_near_unit() {
    // At least one world unit long: squared magnitude within
    // 8 * SCALE of the exact unit square.
    let v = Vec3::new(1000, 1000, 1000);
    let r = normalize_or_zero(&v);
    let n = r.x * r.x + r.y * r.y + r.z * r.z;
    assert!(n <= 1_000_000);
    assert!(n >= 1_000_000 - 8_000);
}

#[test]
fn isqrt_ceil_small_values() {
    assert_eq!(isqrt_ceil(0), 0);
    assert_eq!(isqrt_ceil(1), 1);
    assert_eq!(isqrt_ceil(2), 2);
    assert_eq!(isqrt_ceil(3), 2);
    assert_eq!(isqrt_ceil(4), 2);
    assert_eq!(isqrt_ceil(5), 3);
    assert_eq!(isqrt_ceil(10_201), 101);
    assert_eq!(isqrt_ceil(25_000_000), 5000);
}

#[test]
fn isqrt_ceil_largest_argument() {
    assert_eq!(isqrt_ceil(0x4000_0000_0000_0000), 0x8000_0000);
}

#[test]
fn scale_toward_rounds_toward_zero() {
    assert_eq!(scale_toward(7, 1, 2), 3);
    assert_eq!(scale_toward(-7, 1, 2), -3);
    assert_eq!(scale_toward(-5000, 2500, 5000), -2500);
    assert_eq!(scale_toward(0, 2500, 5000), 0);
}

#[test]
fn vector_sub_and_horizontal() {
    let a = Vec3::new(10, 20, 30);
    let b = Vec3::new(1, 2, 3);
    let d = a.sub(&b);
    assert_eq!(d, Vec3::new(9, 18, 27));
    assert_eq!(d.horizontal(), Vec3::new(9, 0, 27));
}

#[test]
fn norm_sq_matches_components() {
    let v = Vec3::new(-3, 4, 12);
    assert_eq!(v.norm_sq_i64(), 169);
}

#[test]
fn in_bounds_is_inclusive() {
    let v = Vec3::new(5, -5, 0);
    assert!(v.in_bounds(5));
    assert!(!v.in_bounds(4));
}
