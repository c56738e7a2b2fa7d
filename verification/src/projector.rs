//! Cursor-to-world projection: intersecting a view ray with the
//! horizontal ground plane through the origin (normal is the up axis,
//! offset zero). The embedding program builds the ray from its camera
//! and the cursor; this module finds where the ray meets the ground.

use vstd::prelude::*;
use vstd::math::abs;
use crate::{DIR_LIMIT, MAX_COORD};
use crate::math::{lemma_div_mul_le, lemma_scaled_div_bounds, scale_toward, scaled_div};
use crate::vec3::Vec3;

verus! {

/// A half line in world space: origin plus nonnegative multiples of a
/// direction.
#[derive(Clone, Copy, Debug, PartialEq, Eq, Structural)]
pub struct Ray {
    pub origin: Vec3,
    pub dir: Vec3,
}

impl Ray {
    pub open spec fn wf(self) -> bool {
        &&& self.origin.bounded(MAX_COORD as int)
        &&& self.dir.bounded(DIR_LIMIT as int)
    }

    pub fn new(origin: Vec3, dir: Vec3) -> (r: Ray)
        ensures
            r == (Ray { origin, dir }),
    {
        Ray { origin, dir }
    }
}

/// The ray meets the ground plane at a strictly positive distance
/// exactly when it starts off the plane and its direction points back
/// across it: the intersection distance is `-origin.y / dir.y`.
pub open spec fn hits_ground(r: Ray) -> bool {
    ||| (r.origin.y > 0 && r.dir.y < 0)
    ||| (r.origin.y < 0 && r.dir.y > 0)
}

/// Numerator of the intersection distance: the height to cross.
pub open spec fn hit_t_num(r: Ray) -> int {
    abs(r.origin.y as int) as int
}

/// Denominator of the intersection distance: the vertical rate.
pub open spec fn hit_t_den(r: Ray) -> int {
    abs(r.dir.y as int) as int
}

/// The point where the ray meets the ground: origin plus direction
/// scaled by the intersection distance, components rounded toward
/// zero, and the vertical component exactly zero.
pub open spec fn ground_point(r: Ray) -> Vec3 {
    Vec3 {
        x: (r.origin.x + scaled_div(r.dir.x as int, hit_t_num(r), hit_t_den(r))) as i64,
        y: 0,
        z: (r.origin.z + scaled_div(r.dir.z as int, hit_t_num(r), hit_t_den(r))) as i64,
    }
}

/// What `intersect_ground` returns for every ray.
pub open spec fn intersect_ground_spec(r: Ray) -> Option<Vec3> {
    if hits_ground(r) {
        Some(ground_point(r))
    } else {
        None
    }
}

/// Bound the scaled offsets, so that the casts in `ground_point` keep
/// the exact values.
proof fn lemma_ground_point_fits(r: Ray)
    requires
        r.wf(),
        hits_ground(r),
    ensures
        abs(scaled_div(r.dir.x as int, hit_t_num(r), hit_t_den(r)))
            <= DIR_LIMIT as int * MAX_COORD as int,
        abs(scaled_div(r.dir.z as int, hit_t_num(r), hit_t_den(r)))
            <= DIR_LIMIT as int * MAX_COORD as int,
        ground_point(r).x as int
            == r.origin.x + scaled_div(r.dir.x as int, hit_t_num(r), hit_t_den(r)),
        ground_point(r).z as int
            == r.origin.z + scaled_div(r.dir.z as int, hit_t_num(r), hit_t_den(r)),
{
    let tn = hit_t_num(r);
    let td = hit_t_den(r);
    lemma_scaled_div_bounds(r.dir.x as int, tn, td);
    lemma_scaled_div_bounds(r.dir.z as int, tn, td);
    assert(abs(r.dir.x as int) * tn <= DIR_LIMIT as int * MAX_COORD as int) by (nonlinear_arith)
        requires
            0 <= abs(r.dir.x as int) <= DIR_LIMIT as int,
            0 <= tn <= MAX_COORD as int;
    assert(abs(r.dir.z as int) * tn <= DIR_LIMIT as int * MAX_COORD as int) by (nonlinear_arith)
        requires
            0 <= abs(r.dir.z as int) <= DIR_LIMIT as int,
            0 <= tn <= MAX_COORD as int;
}

/// Project the ray onto the ground plane, or report that it misses:
/// a ray that starts on the plane, runs parallel to it, or points away
/// from it yields no intersection, and the caller skips its frame.
pub fn intersect_ground(ray: &Ray) -> (res: Option<Vec3>)
    requires
        ray.wf(),
    ensures
        res == intersect_ground_spec(*ray),
        res is Some ==> res->0.y == 0,
        res is Some <==> hits_ground(*ray),
{
    let oy = ray.origin.y;
    let dy = ray.dir.y;
    if (oy > 0 && dy < 0) || (oy < 0 && dy > 0) {
        let tn = if oy > 0 { oy } else { -oy };
        let td = if dy > 0 { dy } else { -dy };
        proof {
            lemma_ground_point_fits(*ray);
            assert(abs(ray.dir.x as int) * tn <= i64::MAX) by (nonlinear_arith)
                requires
                    0 <= abs(ray.dir.x as int) <= DIR_LIMIT as int,
                    0 <= tn as int <= MAX_COORD as int;
            assert(abs(ray.dir.z as int) * tn <= i64::MAX) by (nonlinear_arith)
                requires
                    0 <= abs(ray.dir.z as int) <= DIR_LIMIT as int,
                    0 <= tn as int <= MAX_COORD as int;
        }
        let qx = scale_toward(ray.dir.x, tn, td);
        let qz = scale_toward(ray.dir.z, tn, td);
        Some(Vec3 { x: ray.origin.x + qx, y: 0, z: ray.origin.z + qz })
    } else {
        None
    }
}

/// Projection law: the reported point lies exactly on the plane, and
/// along the ray within one rounding step per horizontal component:
/// scaled by the denominator of the intersection distance, the point
/// differs from `origin + t * dir` by less than one denominator, and
/// vertically not at all.
pub proof fn lemma_projection_on_ray(r: Ray)
    requires
        r.wf(),
        hits_ground(r),
    ensures
        ground_point(r).y == 0,
        abs((ground_point(r).x - r.origin.x) * hit_t_den(r) - r.dir.x * hit_t_num(r))
            < hit_t_den(r),
        abs((ground_point(r).z - r.origin.z) * hit_t_den(r) - r.dir.z * hit_t_num(r))
            < hit_t_den(r),
        (0 - r.origin.y) * hit_t_den(r) == r.dir.y * hit_t_num(r),
{
    let tn = hit_t_num(r);
    let td = hit_t_den(r);
    lemma_ground_point_fits(r);
    lemma_scaled_component_near(r.dir.x as int, tn, td);
    lemma_scaled_component_near(r.dir.z as int, tn, td);
    assert((0 - r.origin.y) * td == r.dir.y * tn) by (nonlinear_arith)
        requires
            tn == abs(r.origin.y as int),
            td == abs(r.dir.y as int),
            (r.origin.y > 0 && r.dir.y < 0) || (r.origin.y < 0 && r.dir.y > 0);
}

/// The truncated scaling lands within one denominator of the exact
/// rational product.
proof fn lemma_scaled_component_near(c: int, tn: int, td: int)
    requires
        0 <= tn,
        0 < td,
    ensures
        abs(scaled_div(c, tn, td) * td - c * tn) < td,
{
    let a = abs(c);
    let q = a * tn / td;
    lemma_scaled_div_bounds(c, tn, td);
    assert(0 <= a * tn) by (nonlinear_arith)
        requires 0 <= a, 0 <= tn;
    lemma_div_mul_le(a * tn, td);
    if c >= 0 {
        assert(scaled_div(c, tn, td) == q);
        assert(a * tn == c * tn);
    } else {
        assert(scaled_div(c, tn, td) == -q);
        assert((-q) * td - c * tn == -(q * td - a * tn)) by (nonlinear_arith)
            requires a == -c;
    }
}

} // verus!
