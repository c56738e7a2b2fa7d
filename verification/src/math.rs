//! Scalar fixed-point helpers: truncated scaling of an integer by a
//! rational factor, and an integer ceiling square root. All vector and
//! controller arithmetic reduces to these two operations.

use vstd::prelude::*;
use vstd::math::abs;
use vstd::arithmetic::div_mod::{
    lemma_div_pos_is_pos, lemma_fundamental_div_mod, lemma_mod_division_less_than_divisor,
    lemma_div_is_ordered, lemma_div_multiples_vanish, lemma_div_of0,
};

verus! {

/// Largest argument `isqrt_ceil` accepts; its root still squares
/// within `u64`.
pub const MAX_NORM_SQ: u64 = 0x4000_0000_0000_0000;

/// `c` scaled by `num / den`, rounded toward zero (the rounding of
/// `i64` division applied to a signed numerator).
pub open spec fn scaled_div(c: int, num: int, den: int) -> int {
    if c >= 0 {
        c * num / den
    } else {
        -((-c) * num / den)
    }
}

/// `l` is the least nonnegative integer whose square reaches `n`.
pub open spec fn is_isqrt_ceil(n: int, l: int) -> bool {
    &&& 0 <= l
    &&& n <= l * l
    &&& (l == 0 || (l - 1) * (l - 1) < n)
}

/// The ceiling square root as a spec-level value; `lemma_isqrt_exists`
/// shows it satisfies `is_isqrt_ceil` for every nonnegative argument.
pub open spec fn isqrt_ceil_spec(n: int) -> int {
    choose|l: int| is_isqrt_ceil(n, l)
}

/// No two integers satisfy `is_isqrt_ceil` for the same argument.
pub proof fn lemma_isqrt_unique(n: int, l1: int, l2: int)
    requires
        is_isqrt_ceil(n, l1),
        is_isqrt_ceil(n, l2),
    ensures
        l1 == l2,
{
    if l1 < l2 {
        assert(l1 * l1 <= (l2 - 1) * (l2 - 1)) by (nonlinear_arith)
            requires 0 <= l1, l1 <= l2 - 1;
    }
    if l2 < l1 {
        assert(l2 * l2 <= (l1 - 1) * (l1 - 1)) by (nonlinear_arith)
            requires 0 <= l2, l2 <= l1 - 1;
    }
}

/// Every nonnegative integer has a ceiling square root, so
/// `isqrt_ceil_spec` denotes it.
pub proof fn lemma_isqrt_exists(n: int)
    requires
        0 <= n,
    ensures
        is_isqrt_ceil(n, isqrt_ceil_spec(n)),
    decreases n,
{
    if n == 0 {
        assert(is_isqrt_ceil(0, 0));
    } else {
        lemma_isqrt_exists(n - 1);
        let p = isqrt_ceil_spec(n - 1);
        if p * p >= n {
            assert(is_isqrt_ceil(n, p));
        } else {
            assert((p + 1 - 1) * (p + 1 - 1) < n);
            assert(n <= (p + 1) * (p + 1)) by (nonlinear_arith)
                requires 0 <= p, p * p >= n - 1, p * p < n;
            assert(is_isqrt_ceil(n, p + 1));
        }
    }
    let w = isqrt_ceil_spec(n);
    assert(is_isqrt_ceil(n, w));
}

/// Pin `isqrt_ceil_spec` to a concrete witness.
pub proof fn lemma_isqrt_spec_of(n: int, l: int)
    requires
        0 <= n,
        is_isqrt_ceil(n, l),
    ensures
        isqrt_ceil_spec(n) == l,
{
    lemma_isqrt_exists(n);
    lemma_isqrt_unique(n, isqrt_ceil_spec(n), l);
}

/// Truncated division of a nonnegative value stays below the exact
/// quotient: `(a / d) * d <= a`.
pub proof fn lemma_div_mul_le(a: int, d: int)
    requires
        0 <= a,
        0 < d,
    ensures
        0 <= a / d,
        (a / d) * d <= a,
        a - d < (a / d) * d,
{
    lemma_div_pos_is_pos(a, d);
    lemma_fundamental_div_mod(a, d);
    lemma_mod_division_less_than_divisor(a, d);
    assert((a / d) * d == d * (a / d)) by (nonlinear_arith);
}

/// Sign and magnitude facts about `scaled_div`.
pub proof fn lemma_scaled_div_bounds(c: int, num: int, den: int)
    requires
        0 <= num,
        0 < den,
    ensures
        0 <= c ==> 0 <= scaled_div(c, num, den),
        c <= 0 ==> scaled_div(c, num, den) <= 0,
        abs(scaled_div(c, num, den)) == abs(c) * num / den,
        abs(scaled_div(c, num, den)) <= abs(c) * num,
        abs(c) <= den ==> abs(scaled_div(c, num, den)) <= num,
        num <= den ==> abs(scaled_div(c, num, den)) <= abs(c),
{
    let a = abs(c);
    assert(0 <= a * num) by (nonlinear_arith)
        requires 0 <= a, 0 <= num;
    lemma_div_mul_le(a * num, den);
    let q = a * num / den;
    if c >= 0 {
        assert(scaled_div(c, num, den) == q);
    } else {
        assert(scaled_div(c, num, den) == -q);
    }
    if c == 0 {
        assert(a * num == 0) by (nonlinear_arith)
            requires a == 0;
        lemma_div_of0(den);
    }
    // abs(q') <= abs(c) * num: division by den >= 1 does not grow the value.
    assert(a * num <= a * num * den) by (nonlinear_arith)
        requires 0 <= a * num, 1 <= den;
    lemma_div_is_ordered(a * num, a * num * den, den);
    lemma_div_multiples_vanish(a * num, den);
    assert(den * (a * num) == a * num * den) by (nonlinear_arith);
    if a <= den {
        assert(a * num <= den * num) by (nonlinear_arith)
            requires 0 <= num, a <= den;
        lemma_div_is_ordered(a * num, den * num, den);
        lemma_div_multiples_vanish(num, den);
        assert(den * num / den == num);
    }
    if num <= den {
        assert(a * num <= den * a) by (nonlinear_arith)
            requires 0 <= a, num <= den;
        lemma_div_is_ordered(a * num, den * a, den);
        lemma_div_multiples_vanish(a as int, den);
    }
}

/// Scaling the zero component gives zero.
pub proof fn lemma_scaled_div_zero(num: int, den: int)
    requires
        0 <= num,
        0 < den,
    ensures
        scaled_div(0, num, den) == 0,
{
    lemma_div_of0(den);
}

/// One scaled component, squared: `m * l` is trapped within one
/// denominator of `c * num`, so its square is below `c^2 * num^2`.
proof fn lemma_scaled_component_sq(c: int, num: int, l: int, m: int)
    requires
        0 <= num,
        0 < l,
        m == scaled_div(c, num, l),
    ensures
        m * m * (l * l) <= (c * c) * (num * num),
{
    let a = abs(c);
    let q = abs(m);
    lemma_scaled_div_bounds(c, num, l);
    assert(0 <= a * num) by (nonlinear_arith)
        requires 0 <= a, 0 <= num;
    lemma_div_mul_le(a * num, l);
    assert(q * l <= a * num);
    assert(q * q * (l * l) <= (a * a) * (num * num)) by (nonlinear_arith)
        requires 0 <= q, 0 <= a * num, 0 < l, q * l <= a * num;
    assert(m * m == q * q) by (nonlinear_arith)
        requires q == abs(m);
    assert(c * c == a * a) by (nonlinear_arith)
        requires a == abs(c);
}

/// A vector scaled componentwise by `num / l` with `l` at least the
/// vector's magnitude has magnitude at most `num`: the step a frame
/// applies never exceeds the commanded step length.
pub proof fn lemma_scaled_vector_sq_bound(
    vx: int, vy: int, vz: int, num: int, l: int, mx: int, my: int, mz: int,
)
    requires
        0 <= num,
        0 < l,
        vx * vx + vy * vy + vz * vz <= l * l,
        mx == scaled_div(vx, num, l),
        my == scaled_div(vy, num, l),
        mz == scaled_div(vz, num, l),
    ensures
        mx * mx + my * my + mz * mz <= num * num,
{
    lemma_scaled_component_sq(vx, num, l, mx);
    lemma_scaled_component_sq(vy, num, l, my);
    lemma_scaled_component_sq(vz, num, l, mz);
    assert(mx * mx + my * my + mz * mz <= num * num) by (nonlinear_arith)
        requires
            0 <= num,
            0 < l,
            vx * vx + vy * vy + vz * vz <= l * l,
            mx * mx * (l * l) <= (vx * vx) * (num * num),
            my * my * (l * l) <= (vy * vy) * (num * num),
            mz * mz * (l * l) <= (vz * vz) * (num * num);
}

/// A square never lies above the square of a bound on the magnitude.
pub proof fn lemma_square_bound(a: int, b: int)
    requires
        -b <= a <= b,
    ensures
        0 <= a * a <= b * b,
{
    assert(0 <= a * a <= b * b) by (nonlinear_arith)
        requires -b <= a <= b;
}

/// Squares order as magnitudes do.
pub proof fn lemma_abs_le_of_sq_le(a: int, b: int)
    requires
        a * a <= b * b,
        0 <= b,
    ensures
        -b <= a <= b,
{
    assert(-b <= a <= b) by (nonlinear_arith)
        requires a * a <= b * b, 0 <= b;
}

/// `c` scaled by `num / den`, rounded toward zero.
pub fn scale_toward(c: i64, num: i64, den: i64) -> (r: i64)
    requires
        0 <= num,
        0 < den,
        i64::MIN < c,
        abs(c as int) * num <= i64::MAX,
    ensures
        r == scaled_div(c as int, num as int, den as int),
{
    proof {
        lemma_scaled_div_bounds(c as int, num as int, den as int);
    }
    if c >= 0 {
        proof {
            assert(0 <= c * num) by (nonlinear_arith)
                requires 0 <= c, 0 <= num;
            lemma_div_mul_le((c * num) as int, den as int);
            lemma_div_is_ordered(0, (c * num) as int, den as int);
        }
        (c * num) / den
    } else {
        let neg = -c;
        proof {
            assert(0 <= neg * num) by (nonlinear_arith)
                requires 0 <= neg, 0 <= num;
            lemma_div_mul_le((neg * num) as int, den as int);
            assert((neg * num) as int / (den as int) * den <= neg * num);
            assert((neg * num) as int / (den as int) <= neg * num) by (nonlinear_arith)
                requires
                    0 <= (neg * num) as int / (den as int),
                    1 <= den,
                    (neg * num) as int / (den as int) * den <= neg * num;
        }
        -((neg * num) / den)
    }
}

/// The least `u64` whose square reaches `n`.
pub fn isqrt_ceil(n: u64) -> (l: u64)
    requires
        n <= MAX_NORM_SQ,
    ensures
        is_isqrt_ceil(n as int, l as int),
        l as int == isqrt_ceil_spec(n as int),
        l <= 0x8000_0000,
{
    let mut lo: u64 = 0;
    let mut hi: u64 = 0x8000_0000;
    proof {
        assert((0x8000_0000 as int) * (0x8000_0000 as int) >= n as int);
    }
    while lo < hi
        invariant
            lo <= hi,
            hi <= 0x8000_0000,
            n <= MAX_NORM_SQ,
            (hi as int) * (hi as int) >= n as int,
            lo > 0 ==> ((lo - 1) as int) * ((lo - 1) as int) < n as int,
        decreases hi - lo,
    {
        let mid = lo + (hi - lo) / 2;
        proof {
            assert(mid < hi);
            assert((mid as int) * (mid as int) <= (0x8000_0000 as int) * (0x8000_0000 as int))
                by (nonlinear_arith)
                requires 0 <= mid as int <= 0x8000_0000 as int;
        }
        if mid * mid >= n {
            hi = mid;
        } else {
            lo = mid + 1;
        }
    }
    proof {
        lemma_isqrt_spec_of(n as int, lo as int);
    }
    lo
}

} // verus!
