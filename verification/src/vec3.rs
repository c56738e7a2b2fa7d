//! Fixed-point 3D vectors. Components count thousandths of a world
//! unit; `y` is the vertical axis, and the ground plane is `y == 0`.

use vstd::prelude::*;
use vstd::math::abs;
use vstd::arithmetic::div_mod::lemma_div_is_ordered;
use crate::{DIR_LIMIT, EPSILON, SCALE};
use crate::math::{
    is_isqrt_ceil, isqrt_ceil, isqrt_ceil_spec, lemma_abs_le_of_sq_le, lemma_scaled_div_bounds,
    lemma_scaled_div_zero, lemma_scaled_vector_sq_bound, lemma_square_bound, scale_toward,
    scaled_div, MAX_NORM_SQ,
};

verus! {

/// A point or direction in world space, in fixed point.
#[derive(Clone, Copy, Debug, PartialEq, Eq, Structural)]
pub struct Vec3 {
    pub x: i64,
    pub y: i64,
    pub z: i64,
}

impl Vec3 {
    /// The squared magnitude, exact over the integers.
    pub open spec fn norm_sq(self) -> int {
        self.x * self.x + self.y * self.y + self.z * self.z
    }

    /// Every component within `[-b, b]`.
    pub open spec fn bounded(self, b: int) -> bool {
        &&& -b <= self.x <= b
        &&& -b <= self.y <= b
        &&& -b <= self.z <= b
    }

    /// The origin / zero direction.
    pub open spec fn zero_spec() -> Vec3 {
        Vec3 { x: 0, y: 0, z: 0 }
    }

    pub fn zero() -> (r: Vec3)
        ensures
            r == Vec3::zero_spec(),
    {
        Vec3 { x: 0, y: 0, z: 0 }
    }

    pub fn new(x: i64, y: i64, z: i64) -> (r: Vec3)
        ensures
            r == (Vec3 { x, y, z }),
    {
        Vec3 { x, y, z }
    }

    /// Componentwise difference `self - other`.
    pub fn sub(&self, other: &Vec3) -> (r: Vec3)
        requires
            i64::MIN <= self.x - other.x <= i64::MAX,
            i64::MIN <= self.y - other.y <= i64::MAX,
            i64::MIN <= self.z - other.z <= i64::MAX,
        ensures
            r.x == self.x - other.x,
            r.y == self.y - other.y,
            r.z == self.z - other.z,
    {
        Vec3 { x: self.x - other.x, y: self.y - other.y, z: self.z - other.z }
    }

    /// The projection onto the ground plane: the vertical component
    /// zeroed, the rest kept.
    pub fn horizontal(&self) -> (r: Vec3)
        ensures
            r.x == self.x,
            r.y == 0,
            r.z == self.z,
    {
        Vec3 { x: self.x, y: 0, z: self.z }
    }

    /// Whether every component lies within `[-b, b]`.
    pub fn in_bounds(&self, b: i64) -> (r: bool)
        requires
            0 <= b,
        ensures
            r == self.bounded(b as int),
    {
        -b <= self.x && self.x <= b && -b <= self.y && self.y <= b && -b <= self.z && self.z
            <= b
    }

    /// The squared magnitude as a machine integer.
    pub fn norm_sq_i64(&self) -> (r: i64)
        requires
            self.bounded(DIR_LIMIT as int),
        ensures
            r == self.norm_sq(),
            0 <= r <= 3 * (DIR_LIMIT as int) * (DIR_LIMIT as int),
    {
        proof {
            lemma_square_bound(self.x as int, DIR_LIMIT as int);
            lemma_square_bound(self.y as int, DIR_LIMIT as int);
            lemma_square_bound(self.z as int, DIR_LIMIT as int);
        }
        self.x * self.x + self.y * self.y + self.z * self.z
    }
}

/// What `normalize_or_zero` returns: the zero vector for inputs below
/// the epsilon magnitude, else the input scaled to `SCALE` by its
/// ceiling-root magnitude, each component rounded toward zero.
pub open spec fn normalize_spec(v: Vec3) -> Vec3 {
    if v.norm_sq() < EPSILON * EPSILON {
        Vec3::zero_spec()
    } else {
        let l = isqrt_ceil_spec(v.norm_sq());
        Vec3 {
            x: scaled_div(v.x as int, SCALE as int, l) as i64,
            y: scaled_div(v.y as int, SCALE as int, l) as i64,
            z: scaled_div(v.z as int, SCALE as int, l) as i64,
        }
    }
}

/// Scale a direction to (near) unit length, or to the exact zero
/// vector when its magnitude is below `EPSILON`: division by a tiny
/// magnitude never produces an undefined direction.
pub fn normalize_or_zero(v: &Vec3) -> (r: Vec3)
    requires
        v.bounded(DIR_LIMIT as int),
    ensures
        r == normalize_spec(*v),
        v.norm_sq() < EPSILON * EPSILON ==> r == Vec3::zero_spec(),
        r.norm_sq() <= SCALE * SCALE,
        r.bounded(SCALE as int),
{
    let n = v.norm_sq_i64();
    if n < EPSILON * EPSILON {
        proof {
            lemma_square_bound(0, SCALE as int);
        }
        Vec3 { x: 0, y: 0, z: 0 }
    } else {
        let l64 = isqrt_ceil(n as u64);
        proof {
            assert(l64 > 0) by {
                if l64 == 0 {
                    assert(n as int <= 0) by (nonlinear_arith)
                        requires n as int <= (l64 as int) * (l64 as int), l64 == 0;
                }
            }
        }
        let l = l64 as i64;
        proof {
            lemma_square_bound(v.x as int, DIR_LIMIT as int);
            lemma_square_bound(v.y as int, DIR_LIMIT as int);
            lemma_square_bound(v.z as int, DIR_LIMIT as int);
            lemma_abs_le_of_sq_le(v.x as int, l as int);
            lemma_abs_le_of_sq_le(v.y as int, l as int);
            lemma_abs_le_of_sq_le(v.z as int, l as int);
            lemma_scaled_div_bounds(v.x as int, SCALE as int, l as int);
            lemma_scaled_div_bounds(v.y as int, SCALE as int, l as int);
            lemma_scaled_div_bounds(v.z as int, SCALE as int, l as int);
        }
        let rx = scale_toward(v.x, SCALE, l);
        let ry = scale_toward(v.y, SCALE, l);
        let rz = scale_toward(v.z, SCALE, l);
        proof {
            lemma_scaled_vector_sq_bound(
                v.x as int, v.y as int, v.z as int, SCALE as int, l as int,
                rx as int, ry as int, rz as int,
            );
        }
        Vec3 { x: rx, y: ry, z: rz }
    }
}

/// Unit-length law: a direction of at least one world unit normalizes
/// to a vector whose squared magnitude lies within `8 * SCALE` of the
/// exact unit square `SCALE * SCALE`.
pub proof fn lemma_normalize_unit_length(v: Vec3)
    requires
        v.bounded(DIR_LIMIT as int),
        v.norm_sq() >= SCALE * SCALE,
    ensures
        normalize_spec(v).norm_sq() <= SCALE * SCALE,
        normalize_spec(v).norm_sq() >= SCALE * SCALE - 8 * SCALE,
{
    let n = v.norm_sq();
    let s = SCALE as int;
    crate::math::lemma_isqrt_exists(n);
    let l = isqrt_ceil_spec(n);
    assert(is_isqrt_ceil(n, l));
    // l is at least SCALE, since n >= SCALE^2.
    assert(l >= s) by (nonlinear_arith)
        requires 0 <= l, l * l >= n, n >= s * s, 0 < s, (l - 1) * (l - 1) < n || l == 0;
    // Component magnitudes stay within l.
    lemma_square_bound(v.y as int, DIR_LIMIT as int);
    lemma_square_bound(v.z as int, DIR_LIMIT as int);
    lemma_square_bound(v.x as int, DIR_LIMIT as int);
    lemma_abs_le_of_sq_le(v.x as int, l);
    lemma_abs_le_of_sq_le(v.y as int, l);
    lemma_abs_le_of_sq_le(v.z as int, l);
    let rx = scaled_div(v.x as int, s, l);
    let ry = scaled_div(v.y as int, s, l);
    let rz = scaled_div(v.z as int, s, l);
    lemma_scaled_div_bounds(v.x as int, s, l);
    lemma_scaled_div_bounds(v.y as int, s, l);
    lemma_scaled_div_bounds(v.z as int, s, l);
    // The casts in normalize_spec do not truncate.
    assert(normalize_spec(v).x == rx);
    assert(normalize_spec(v).y == ry);
    assert(normalize_spec(v).z == rz);
    lemma_scaled_vector_sq_bound(
        v.x as int, v.y as int, v.z as int, s, l, rx, ry, rz,
    );
    // Lower bound, componentwise: rx * l is within l of v.x * s.
    lemma_component_lower(v.x as int, s, l, rx);
    lemma_component_lower(v.y as int, s, l, ry);
    lemma_component_lower(v.z as int, s, l, rz);
    let ax = abs(v.x as int) as int;
    let ay = abs(v.y as int) as int;
    let az = abs(v.z as int) as int;
    let t = l * l;
    let u = s * s;
    let sum_r = rx * rx + ry * ry + rz * rz;
    // Sum the componentwise lower bounds.
    assert(sum_r * t == rx * rx * t + ry * ry * t + rz * rz * t) by (nonlinear_arith)
        requires sum_r == rx * rx + ry * ry + rz * rz, t == l * l;
    assert(n * u == (v.x * v.x) * u + (v.y * v.y) * u + (v.z * v.z) * u) by (nonlinear_arith)
        requires n == v.x * v.x + v.y * v.y + v.z * v.z, u == s * s;
    assert(sum_r * t >= n * u - (2 * l * s * ax + 2 * l * s * ay + 2 * l * s * az));
    // The dropped rounding terms total at most 6 * t * s.
    assert(2 * l * s * ax + 2 * l * s * ay + 2 * l * s * az <= 6 * t * s) by (nonlinear_arith)
        requires
            0 < l, 0 < s, t == l * l,
            0 <= ax <= l, 0 <= ay <= l, 0 <= az <= l;
    // n itself is close to t from below.
    assert((l - 1) * (l - 1) == t - 2 * l + 1) by (nonlinear_arith)
        requires t == l * l;
    assert(n * u >= (t - 2 * l + 2) * u) by (nonlinear_arith)
        requires n >= t - 2 * l + 2, 0 <= u;
    assert((t - 2 * l + 2) * u == t * u - 2 * l * u + 2 * u) by (nonlinear_arith);
    assert(sum_r * t >= t * u - 2 * l * u + 2 * u - 6 * t * s);
    // Since l >= s, the 2 * l * u term is within 2 * t * s.
    assert(2 * l * u <= 2 * s * t) by (nonlinear_arith)
        requires l >= s, 0 < s, t == l * l, u == s * s;
    assert(sum_r * t >= t * u - 8 * (s * t));
    assert(t * u - 8 * (s * t) == (u - 8 * s) * t) by (nonlinear_arith);
    // Cancel the positive factor t.
    assert(sum_r >= u - 8 * s) by (nonlinear_arith)
        requires sum_r * t >= (u - 8 * s) * t, 0 < t;
}

/// The converse of the zero case: a direction at or above the
/// epsilon magnitude never normalizes to the zero vector — its
/// largest component survives the rounding.
pub proof fn lemma_normalize_nonzero(v: Vec3)
    requires
        v.bounded(DIR_LIMIT as int),
        v.norm_sq() >= EPSILON * EPSILON,
    ensures
        normalize_spec(v) != Vec3::zero_spec(),
{
    let n = v.norm_sq();
    let s = SCALE as int;
    crate::math::lemma_isqrt_exists(n);
    let l = isqrt_ceil_spec(n);
    assert(is_isqrt_ceil(n, l));
    assert(l >= 1) by (nonlinear_arith)
        requires 0 <= l, l * l >= n, n >= 1;
    let ax = abs(v.x as int) as int;
    let ay = abs(v.y as int) as int;
    let az = abs(v.z as int) as int;
    let m = if ax >= ay && ax >= az {
        ax
    } else if ay >= az {
        ay
    } else {
        az
    };
    assert(n <= 3 * m * m) by (nonlinear_arith)
        requires
            n == v.x * v.x + v.y * v.y + v.z * v.z,
            ax == abs(v.x as int), ay == abs(v.y as int), az == abs(v.z as int),
            0 <= ax <= m, 0 <= ay <= m, 0 <= az <= m;
    assert(m >= 1) by (nonlinear_arith)
        requires n <= 3 * m * m, n >= 1, 0 <= m;
    // The root never exceeds twice the largest component.
    assert(l <= 2 * m) by (nonlinear_arith)
        requires
            (l - 1) * (l - 1) < n,
            n <= 3 * m * m,
            1 <= m,
            1 <= l;
    // So scaling the largest component to SCALE cannot truncate to 0.
    assert(m * s >= l) by (nonlinear_arith)
        requires l <= 2 * m, 1 <= m, s == 1000;
    vstd::arithmetic::div_mod::lemma_div_by_self(l);
    lemma_div_is_ordered(l, m * s, l);
    assert(m * s / l >= 1);
    lemma_square_bound(v.y as int, DIR_LIMIT as int);
    lemma_square_bound(v.z as int, DIR_LIMIT as int);
    lemma_square_bound(v.x as int, DIR_LIMIT as int);
    lemma_abs_le_of_sq_le(v.x as int, l);
    lemma_abs_le_of_sq_le(v.y as int, l);
    lemma_abs_le_of_sq_le(v.z as int, l);
    lemma_scaled_div_bounds(v.x as int, s, l);
    lemma_scaled_div_bounds(v.y as int, s, l);
    lemma_scaled_div_bounds(v.z as int, s, l);
    if m == ax {
        assert(abs(normalize_spec(v).x as int) == ax * s / l);
    } else if m == ay {
        assert(abs(normalize_spec(v).y as int) == ay * s / l);
    } else {
        assert(abs(normalize_spec(v).z as int) == az * s / l);
    }
}

/// One component of the lower bound: the truncated quotient times `l`
/// sits within one `l` of the exact product, so its square loses at
/// most `2 * l * s * abs(c)`.
proof fn lemma_component_lower(c: int, s: int, l: int, r: int)
    requires
        0 < s,
        0 < l,
        r == scaled_div(c, s, l),
    ensures
        r * r * (l * l) >= (c * c) * (s * s) - 2 * l * s * abs(c),
{
    let a = abs(c);
    let q = abs(r);
    lemma_scaled_div_bounds(c, s, l);
    assert(0 <= a * s) by (nonlinear_arith)
        requires 0 <= a, 0 <= s;
    crate::math::lemma_div_mul_le(a * s, l);
    assert(q * l > a * s - l);
    // (q * l)^2 >= (a * s)^2 - 2 * l * (a * s), by cases on a * s <= l.
    assert(q * q * (l * l) >= (a * a) * (s * s) - 2 * l * (a * s)) by (nonlinear_arith)
        requires
            0 <= q,
            0 < l,
            0 <= a * s,
            q * l > a * s - l;
    assert(r * r == q * q) by (nonlinear_arith)
        requires q == abs(r);
    assert(c * c == a * a) by (nonlinear_arith)
        requires a == abs(c);
    assert(2 * l * (a * s) == 2 * l * s * a) by (nonlinear_arith);
}

} // verus!
