//! Fixed-point scalar arithmetic: truncating division, a combined
//! multiply-divide, and an integer square root, with the bounds the engine
//! works under.

use vstd::prelude::*;
use vstd::arithmetic::div_mod::{lemma_div_is_ordered, lemma_fundamental_div_mod, lemma_mod_bound};

verus! {

/// Sub-units per spatial unit: coordinates, radii and velocities are stored
/// as multiples of 1/SCALE of a unit. The scale is fine enough that the
/// engine's tolerance of one thousandth of a unit is exactly representable
/// and truncation errors of a few sub-units stay far below it.
pub const SCALE: i64 = 100_000;

/// Extra separation applied when two overlapping balls are pushed apart,
/// so that rounding cannot leave them touching: one thousandth of a
/// spatial unit.
pub const SEP_EPS: i64 = 100;

/// Largest coordinate magnitude the engine operates on.
pub const COORD_LIMIT: i64 = 0x2000_0000;

/// Largest radius the engine operates on.
pub const RADIUS_LIMIT: i64 = 0x100_0000;

/// Largest velocity-component magnitude the engine operates on.
pub const VEL_LIMIT: i64 = 0x100_0000;

/// Largest gravity magnitude the engine operates on.
pub const GRAVITY_LIMIT: i64 = 0x10_0000;

/// Magnitude of an integer.
pub open spec fn abs_spec(a: int) -> int {
    if a >= 0 {
        a
    } else {
        -a
    }
}

/// Division truncated toward zero (the engine's rounding mode), defined for
/// positive divisors.
pub open spec fn div_trunc_spec(a: int, b: int) -> int {
    if a >= 0 {
        a / b
    } else {
        -((-a) / b)
    }
}

/// Truncating `(a * b) / d`.
pub open spec fn mul_div_spec(a: int, b: int, d: int) -> int {
    div_trunc_spec(a * b, d)
}

/// Floor of the square root, as a mathematical function.
pub open spec fn isqrt_spec(n: nat) -> nat
    decreases n,
{
    if n == 0 {
        0
    } else {
        let p = isqrt_spec((n - 1) as nat);
        if (p + 1) * (p + 1) <= n {
            p + 1
        } else {
            p
        }
    }
}

/// `isqrt_spec(n)` really is the floor of the square root.
pub proof fn lemma_isqrt_spec(n: nat)
    ensures
        isqrt_spec(n) * isqrt_spec(n) <= n,
        n < (isqrt_spec(n) + 1) * (isqrt_spec(n) + 1),
    decreases n,
{
    if n == 0 {
        assert(isqrt_spec(n) == 0);
        assert(isqrt_spec(n) * isqrt_spec(n) <= n) by (nonlinear_arith)
            requires
                isqrt_spec(n) == 0,
                n == 0,
            ;
        assert(n < (isqrt_spec(n) + 1) * (isqrt_spec(n) + 1)) by (nonlinear_arith)
            requires
                isqrt_spec(n) == 0,
                n == 0,
            ;
    } else {
        let m = (n - 1) as nat;
        let p = isqrt_spec(m);
        lemma_isqrt_spec(m);
        assert(p * p <= m);
        assert(m < (p + 1) * (p + 1));
        if (p + 1) * (p + 1) <= n {
            assert(isqrt_spec(n) == p + 1);
            assert((p + 1) * (p + 1) < (p + 2) * (p + 2)) by (nonlinear_arith)
                requires
                    p >= 0,
                ;
            assert(n < (p + 1 + 1) * (p + 1 + 1));
        } else {
            assert(isqrt_spec(n) == p);
            assert(n < (p + 1) * (p + 1));
        }
    }
}

/// The magnitude of a product is the product of the magnitudes.
pub proof fn lemma_abs_mul(a: int, b: int)
    ensures
        abs_spec(a * b) == abs_spec(a) * abs_spec(b),
{
    assert(abs_spec(a * b) == abs_spec(a) * abs_spec(b)) by (nonlinear_arith);
}

/// Multiplying both sides of an inequality by a nonnegative factor, on the
/// right.
pub proof fn lemma_mul_le_mono_right(a: int, b: int, c: int)
    requires
        a <= b,
        c >= 0,
    ensures
        a * c <= b * c,
{
    assert(a * c <= b * c) by (nonlinear_arith)
        requires
            a <= b,
            c >= 0,
        ;
}

/// Multiplying both sides of an inequality by a nonnegative factor, on the
/// left.
pub proof fn lemma_mul_le_mono_left(c: int, a: int, b: int)
    requires
        a <= b,
        c >= 0,
    ensures
        c * a <= c * b,
{
    assert(c * a <= c * b) by (nonlinear_arith)
        requires
            a <= b,
            c >= 0,
        ;
}

/// A common positive factor can be cancelled from an inequality.
pub proof fn lemma_mul_cancel(a: int, b: int, c: int)
    requires
        a * c <= b * c,
        c >= 1,
    ensures
        a <= b,
{
    assert(a <= b) by (nonlinear_arith)
        requires
            a * c <= b * c,
            c >= 1,
        ;
}

/// Multiplication of integers commutes.
pub proof fn lemma_mul_comm(a: int, b: int)
    ensures
        a * b == b * a,
{
    assert(a * b == b * a) by (nonlinear_arith);
}

/// A strict square bound gives a strict magnitude bound.
pub proof fn lemma_sq_lt(a: int, b: int)
    requires
        a * a < b * b,
        b >= 0,
    ensures
        -b < a < b,
{
    assert(-b < a < b) by (nonlinear_arith)
        requires
            a * a < b * b,
            b >= 0,
        ;
}

/// Truncating division of a nonnegative value is nonnegative.
pub proof fn lemma_div_trunc_nonneg(a: int, b: int)
    requires
        a >= 0,
        b >= 1,
    ensures
        div_trunc_spec(a, b) >= 0,
{
    lemma_fundamental_div_mod(a, b);
    assert(a / b >= 0) by (nonlinear_arith)
        requires
            a == b * (a / b) + a % b,
            0 <= a % b < b,
            b >= 1,
            a >= 0,
        ;
}

/// Halving by truncating division loses less than one: doubling the
/// quotient lands within one of the dividend.
pub proof fn lemma_div_trunc_half(t: int)
    ensures
        abs_spec(2 * div_trunc_spec(t, 2) - t) <= 1,
{
    let m = abs_spec(t);
    lemma_fundamental_div_mod(m, 2);
    lemma_mod_bound(m, 2);
}

/// Truncating division loses less than one multiple of the divisor:
/// multiplying the quotient back lands within `b` of the dividend.
pub proof fn lemma_div_trunc_close(a: int, b: int)
    requires
        b >= 1,
    ensures
        abs_spec(div_trunc_spec(a, b) * b - a) < b,
{
    let m = abs_spec(a);
    lemma_fundamental_div_mod(m, b);
    lemma_mod_bound(m, b);
    assert((m / b) * b == b * (m / b)) by (nonlinear_arith);
    assert((-(m / b)) * b == -(b * (m / b))) by (nonlinear_arith);
}

/// A square is never negative.
pub proof fn lemma_sq_nonneg(a: int)
    ensures
        a * a >= 0,
{
    assert(a * a >= 0) by (nonlinear_arith);
}

/// Squares of nonnegative integers are ordered as their bases are.
pub proof fn lemma_sq_mono(a: int, b: int)
    requires
        0 <= a <= b,
    ensures
        a * a <= b * b,
{
    assert(a * a <= b * b) by (nonlinear_arith)
        requires
            0 <= a <= b,
        ;
}

/// Any integer in the floor-square-root window of `n` is `isqrt_spec(n)`.
pub proof fn lemma_isqrt_unique(n: nat, r: int)
    requires
        0 <= r,
        r * r <= n,
        n < (r + 1) * (r + 1),
    ensures
        r == isqrt_spec(n),
{
    let s = isqrt_spec(n);
    lemma_isqrt_spec(n);
    if r < s {
        lemma_sq_mono(r + 1, s as int);
        assert(false);
    }
    if s < r {
        lemma_sq_mono(s as int + 1, r);
        assert(false);
    }
}

/// The product of two bounded integers is bounded by the product of the
/// bounds.
pub proof fn lemma_mul_bound(a: int, b: int, ca: int, cb: int)
    requires
        abs_spec(a) <= ca,
        abs_spec(b) <= cb,
    ensures
        abs_spec(a * b) <= ca * cb,
        -(ca * cb) <= a * b <= ca * cb,
{
    assert(abs_spec(a * b) <= ca * cb && -(ca * cb) <= a * b <= ca * cb) by (nonlinear_arith)
        requires
            abs_spec(a) <= ca,
            abs_spec(b) <= cb,
        ;
}

proof fn lemma_u64_div_le(a: u64, b: u64)
    requires
        b >= 1,
    ensures
        a / b <= a,
{
    assert(a as int <= a as int * b as int) by (nonlinear_arith)
        requires
            b as int >= 1,
            a as int >= 0,
        ;
    lemma_div_is_ordered(a as int, a as int * b as int, b as int);
    assert(a as int * b as int / (b as int) == a as int) by (nonlinear_arith)
        requires
            b as int >= 1,
        ;
}

/// Division truncated toward zero, for a positive divisor.
pub fn div_trunc(a: i64, b: i64) -> (r: i64)
    requires
        b > 0,
        a != i64::MIN,
    ensures
        r == div_trunc_spec(a as int, b as int),
{
    if a >= 0 {
        let q: u64 = (a as u64) / (b as u64);
        proof {
            lemma_u64_div_le(a as u64, b as u64);
        }
        q as i64
    } else {
        let n: i64 = -a;
        let q: u64 = (n as u64) / (b as u64);
        proof {
            lemma_u64_div_le(n as u64, b as u64);
        }
        -(q as i64)
    }
}

/// The magnitude of a truncated quotient is at most the magnitude of the
/// dividend.
pub proof fn lemma_div_trunc_le(a: int, b: int)
    requires
        b >= 1,
    ensures
        abs_spec(div_trunc_spec(a, b)) <= abs_spec(a),
        abs_spec(div_trunc_spec(a, b)) * b <= abs_spec(a),
{
    let m = abs_spec(a);
    lemma_fundamental_div_mod(m, b);
    assert(m / b * b <= m) by (nonlinear_arith)
        requires
            m == b * (m / b) + m % b,
            0 <= m % b,
        ;
    lemma_div_is_ordered(0, m, b);
    assert(m / b <= m) by (nonlinear_arith)
        requires
            b >= 1,
            m >= 0,
            m / b * b <= m,
            m / b >= 0,
        ;
}

/// `a*a <= b*b` for nonnegative `b` bounds `a` in `[-b, b]`.
pub proof fn lemma_sq_le(a: int, b: int)
    requires
        a * a <= b * b,
        b >= 0,
    ensures
        -b <= a <= b,
{
    assert(-b <= a <= b) by (nonlinear_arith)
        requires
            a * a <= b * b,
            b >= 0,
        ;
}

/// Cauchy-Schwarz for 2D integer vectors.
#[verifier::rlimit(60)]
pub proof fn lemma_cauchy_schwarz(ax: int, ay: int, bx: int, by: int)
    ensures
        (ax * bx + ay * by) * (ax * bx + ay * by) <= (ax * ax + ay * ay) * (bx * bx + by * by),
{
    let p = ax * bx;
    let q = ay * by;
    let u = ax * by;
    let v = ay * bx;
    let bx2 = bx * bx;
    let by2 = by * by;
    assert((ax * ax + ay * ay) * (bx2 + by2) == (ax * ax) * bx2 + (ay * ay) * bx2 + (ax * ax)
        * by2 + (ay * ay) * by2) by (nonlinear_arith);
    assert(p * p == (ax * ax) * bx2) by (nonlinear_arith)
        requires
            p == ax * bx,
            bx2 == bx * bx,
        ;
    assert(q * q == (ay * ay) * by2) by (nonlinear_arith)
        requires
            q == ay * by,
            by2 == by * by,
        ;
    assert(u * u == (ax * ax) * by2) by (nonlinear_arith)
        requires
            u == ax * by,
            by2 == by * by,
        ;
    assert(v * v == (ay * ay) * bx2) by (nonlinear_arith)
        requires
            v == ay * bx,
            bx2 == bx * bx,
        ;
    assert((p + q) * (p + q) == p * p + 2 * (p * q) + q * q) by (nonlinear_arith);
    assert((u - v) * (u - v) == u * u - 2 * (u * v) + v * v) by (nonlinear_arith);
    assert(p * q == u * v) by (nonlinear_arith)
        requires
            p == ax * bx,
            q == ay * by,
            u == ax * by,
            v == ay * bx,
        ;
    assert((u - v) * (u - v) >= 0) by (nonlinear_arith);
}

/// Truncating `(a * b) / d` for a positive divisor, computed in 128 bits.
pub fn mul_div_trunc(a: i64, b: i64, d: i64) -> (r: i64)
    requires
        d > 0,
        a != i64::MIN,
        b != i64::MIN,
        abs_spec(a as int) * abs_spec(b as int) <= abs_spec(d as int) * 0x4000_0000_0000_0000,
    ensures
        r == mul_div_spec(a as int, b as int, d as int),
        abs_spec(r as int) * d <= abs_spec(a as int) * abs_spec(b as int),
{
    let ua: u64 = if a >= 0 {
        a as u64
    } else {
        (-a) as u64
    };
    let ub: u64 = if b >= 0 {
        b as u64
    } else {
        (-b) as u64
    };
    let prod: u128 = (ua as u128) * (ub as u128);
    let q: u128 = prod / (d as u128);
    proof {
        lemma_fundamental_div_mod(prod as int, d as int);
        assert(q as int <= 0x4000_0000_0000_0000) by (nonlinear_arith)
            requires
                d as int >= 1,
                prod as int >= 0,
                q as int == prod as int / (d as int),
                prod as int <= d as int * 0x4000_0000_0000_0000,
                prod as int == d as int * (q as int) + prod as int % (d as int),
                0 <= prod as int % (d as int),
            ;
        assert(q as int * d as int <= prod as int) by (nonlinear_arith)
            requires
                prod as int == d as int * (q as int) + prod as int % (d as int),
                0 <= prod as int % (d as int),
            ;
        assert(a as int * b as int == if (a < 0) != (b < 0) {
            -(prod as int)
        } else {
            prod as int
        }) by (nonlinear_arith)
            requires
                prod as int == ua as int * ub as int,
                ua as int == abs_spec(a as int),
                ub as int == abs_spec(b as int),
            ;
    }
    let qi: i64 = q as i64;
    if (a < 0) != (b < 0) {
        -qi
    } else {
        qi
    }
}

/// Scales `v` by the fraction `num / den` (at most one), truncating toward
/// zero; the magnitude never grows.
pub fn damp(v: i64, num: i64, den: i64) -> (r: i64)
    requires
        den > 0,
        0 <= num <= den,
        -0x100_0000_0000 <= v <= 0x100_0000_0000,
    ensures
        r == mul_div_spec(v as int, num as int, den as int),
        abs_spec(r as int) <= abs_spec(v as int),
{
    proof {
        assert(abs_spec(v as int) * abs_spec(num as int) <= abs_spec(den as int)
            * 0x4000_0000_0000_0000) by (nonlinear_arith)
            requires
                abs_spec(v as int) <= 0x100_0000_0000,
                0 <= abs_spec(num as int) <= den,
                abs_spec(den as int) == den,
                den >= 1,
            ;
    }
    let r = mul_div_trunc(v, num, den);
    proof {
        assert(abs_spec(v as int) * abs_spec(num as int) <= abs_spec(v as int) * den)
            by (nonlinear_arith)
            requires
                abs_spec(v as int) >= 0,
                abs_spec(num as int) <= den,
            ;
        lemma_mul_comm(abs_spec(v as int), den as int);
        lemma_mul_cancel(abs_spec(r as int), abs_spec(v as int), den as int);
    }
    r
}

/// Integer square root: the greatest `r` with `r * r <= n`.
pub fn isqrt(n: u64) -> (r: u64)
    ensures
        r == isqrt_spec(n as nat),
        r as int * (r as int) <= n as int,
        (n as int) < (r as int + 1) * (r as int + 1),
        r <= 0xFFFF_FFFF,
{
    let mut lo: u64 = 0;
    let mut hi: u64 = 0x1_0000_0000;
    assert((n as int) < 0x1_0000_0000int * 0x1_0000_0000int);
    while lo + 1 < hi
        invariant
            lo < hi,
            hi <= 0x1_0000_0000,
            lo as int * (lo as int) <= n as int,
            (n as int) < hi as int * (hi as int),
        decreases hi - lo,
    {
        let mid: u64 = lo + (hi - lo) / 2;
        assert(lo < mid < hi);
        proof {
            assert(mid as int * (mid as int) <= 0x1_0000_0000int * 0x1_0000_0000int)
                by (nonlinear_arith)
                requires
                    0 <= mid as int <= 0x1_0000_0000int,
                ;
        }
        if (mid as u128) * (mid as u128) <= (n as u128) {
            lo = mid;
        } else {
            hi = mid;
        }
    }
    proof {
        lemma_isqrt_unique(n as nat, lo as int);
    }
    lo
}

} // verus!
