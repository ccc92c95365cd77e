//! Scaled-integer ("fixed point") scalar arithmetic.
//!
//! A scalar with value `v` represents the real number `v / FX_ONE`.
//! Geometry uses exact operations (with preconditions that rule out
//! overflow); color arithmetic uses saturating operations that clamp to
//! `±SAT_LIMIT` and are total.

use vstd::prelude::*;
use vstd::arithmetic::div_mod::{
    lemma_fundamental_div_mod, lemma_fundamental_div_mod_converse_div,
};

verus! {

/// One unit of the fixed-point scale: the representation of 1.0.
pub const FX_ONE: i64 = 65536;

/// Self-intersection bias applied to secondary rays (about 0.001).
pub const TRACE_BIAS: i64 = 66;

/// Offset applied to shadow-ray origins (about 0.01).
pub const SHADOW_BIAS: i64 = 655;

/// Bound on the coordinates and colors of a well-formed scene.
pub const MAX_COORD: i64 = 0x8000_0000;

/// A hit point with any coordinate beyond this bound is rejected as a
/// quantization degeneracy.
pub const POINT_LIMIT: i64 = 0x4_0000_0000;

/// A hit normal (or any direction produced by normalization) with a
/// coordinate beyond this bound is rejected as a quantization degeneracy.
pub const NORMAL_LIMIT: i64 = 0x4_0000;

/// Bound on the origin of a ray handed to the tracer.
pub const ORIGIN_LIMIT: i64 = 0x8_0000_0000;

/// Bound on the direction of a ray handed to the tracer.
pub const DIR_LIMIT: i64 = 0x100_0000;

/// Bound on the origin and direction of rays handed to intersection
/// queries.
pub const HIT_LIMIT: i64 = 0x10_0000_0000;

/// Bound under which the exact vector operations are free of overflow.
pub const GEOM_LIMIT: i64 = 0x20_0000_0000;

/// Bound under which vector reflection is free of overflow.
pub const REFLECT_LIMIT: i64 = 0x4000_0000;

/// Components smaller than this count as zero (one quantum).
pub const ZERO_TOL: i64 = 1;

/// Color channels saturate at this magnitude; output clamps far below it.
pub const SAT_LIMIT: i64 = 0x4000_0000_0000;

/// The product of two fixed-point scalars, rounded toward minus infinity.
pub open spec fn fx_mul_s(a: int, b: int) -> int {
    (a * b) / (FX_ONE as int)
}

/// Clamp a value into `[-SAT_LIMIT, SAT_LIMIT]`.
pub open spec fn sat_s(v: int) -> int {
    if v > SAT_LIMIT as int {
        SAT_LIMIT as int
    } else if v < -(SAT_LIMIT as int) {
        -(SAT_LIMIT as int)
    } else {
        v
    }
}

/// Saturating fixed-point addition.
pub open spec fn sat_add_s(a: int, b: int) -> int {
    sat_s(a + b)
}

/// Saturating fixed-point multiplication.
pub open spec fn sat_mul_s(a: int, b: int) -> int {
    sat_s(fx_mul_s(a, b))
}

/// Saturating fixed-point power with exponent `e`; `e == 0` gives 1.0.
pub open spec fn sat_pow_s(b: int, e: nat) -> int
    decreases e,
{
    if e == 0 {
        FX_ONE as int
    } else {
        sat_mul_s(sat_pow_s(b, (e - 1) as nat), b)
    }
}

/// `r` is the integer square root of `n`.
pub open spec fn is_sqrt_of(n: int, r: int) -> bool {
    0 <= r && r * r <= n && n < (r + 1) * (r + 1)
}

/// The integer square root (meaningful for `n >= 0`).
pub open spec fn sqrt_s(n: int) -> int {
    choose|r: int| is_sqrt_of(n, r)
}

/// The integer square root is unique, so any witness pins `sqrt_s` down.
pub proof fn lemma_sqrt_unique(n: int, r: int)
    requires
        is_sqrt_of(n, r),
    ensures
        sqrt_s(n) == r,
{
    assert(is_sqrt_of(n, sqrt_s(n)));
    let r2 = sqrt_s(n);
    assert(r2 == r) by (nonlinear_arith)
        requires
            is_sqrt_of(n, r),
            is_sqrt_of(n, r2),
    ;
}

/// A quotient is bounded by `m` whenever the dividend is bounded by `m * d`.
pub proof fn lemma_div_bound(n: int, d: int, m: int)
    requires
        1 <= d,
        0 <= m,
        -(m * d) <= n <= m * d,
    ensures
        -m <= n / d <= m,
{
    lemma_fundamental_div_mod(n, d);
    let q = n / d;
    let r = n % d;
    assert(d * q == n - r);
    assert(q <= m) by (nonlinear_arith)
        requires
            d * q <= m * d,
            d >= 1,
    ;
    assert(-m <= q) by (nonlinear_arith)
        requires
            d * q > -(m * d) - d,
            d >= 1,
    ;
}

/// A division with zero remainder is exact.
pub proof fn lemma_div_exact(x: int, d: int, q: int)
    requires
        d > 0,
        x == q * d,
    ensures
        x / d == q,
{
    lemma_fundamental_div_mod_converse_div(x, d, q, 0);
}

/// Floor division of `n` by a positive divisor `d`.
pub fn fdiv128(n: i128, d: i128) -> (r: i128)
    requires
        d > 0,
        n > i128::MIN,
    ensures
        r as int == n as int / d as int,
{
    if n >= 0 {
        let m: u128 = n as u128;
        let du: u128 = d as u128;
        let q: u128 = m / du;
        proof {
            assert(q <= m) by (nonlinear_arith)
                requires
                    q == m as int / du as int,
                    du >= 1,
                    m >= 0,
            ;
        }
        q as i128
    } else {
        let m: u128 = (-n) as u128;
        let du: u128 = d as u128;
        let q: u128 = (m + (du - 1)) / du;
        proof {
            let mi = m as int;
            let di = du as int;
            let qi = q as int;
            lemma_fundamental_div_mod(mi + di - 1, di);
            let r1 = (mi + di - 1) % di;
            assert(mi + di - 1 == di * qi + r1);
            let rr = di * qi - mi;
            assert(rr == di - 1 - r1);
            assert(0 <= rr < di);
            assert((-qi) * di == -(di * qi)) by (nonlinear_arith);
            assert(n as int == (-qi) * di + rr) by {
                assert(n as int == -mi);
            }
            lemma_fundamental_div_mod_converse_div(n as int, di, -qi, rr);
            assert(qi <= mi) by (nonlinear_arith)
                requires
                    qi == (mi + di - 1) / di,
                    di >= 1,
                    mi >= 1,
            ;
        }
        -(q as i128)
    }
}

/// Exact fixed-point multiplication; the caller shows the result fits.
pub fn fx_mul(a: i64, b: i64) -> (r: i64)
    requires
        i64::MIN <= fx_mul_s(a as int, b as int) <= i64::MAX,
    ensures
        r as int == fx_mul_s(a as int, b as int),
{
    let p: i128 = (a as i128) * (b as i128);
    let q: i128 = fdiv128(p, FX_ONE as i128);
    q as i64
}

/// Clamp a wide intermediate into the saturation range.
pub fn sat_narrow(v: i128) -> (r: i64)
    ensures
        r as int == sat_s(v as int),
{
    if v > SAT_LIMIT as i128 {
        SAT_LIMIT
    } else if v < -(SAT_LIMIT as i128) {
        -SAT_LIMIT
    } else {
        v as i64
    }
}

/// Saturating addition of two color channels.
pub fn sat_add(a: i64, b: i64) -> (r: i64)
    ensures
        r as int == sat_add_s(a as int, b as int),
{
    sat_narrow(a as i128 + b as i128)
}

/// Saturating fixed-point product of two color channels.
pub fn sat_mul(a: i64, b: i64) -> (r: i64)
    ensures
        r as int == sat_mul_s(a as int, b as int),
{
    proof {
        assert(i128::MIN < (a as int) * (b as int) <= i128::MAX) by (nonlinear_arith)
            requires
                i64::MIN <= a as int <= i64::MAX,
                i64::MIN <= b as int <= i64::MAX,
        ;
    }
    let p: i128 = (a as i128) * (b as i128);
    let q: i128 = fdiv128(p, FX_ONE as i128);
    sat_narrow(q)
}

/// Saturating fixed-point power: `b` raised to the integer exponent `e`.
pub fn sat_pow(b: i64, e: u32) -> (r: i64)
    ensures
        r as int == sat_pow_s(b as int, e as nat),
{
    let mut acc: i64 = FX_ONE;
    let mut i: u32 = 0;
    while i < e
        invariant
            0 <= i <= e,
            acc as int == sat_pow_s(b as int, i as nat),
        decreases e - i,
    {
        acc = sat_mul(acc, b);
        i = i + 1;
    }
    acc
}

/// Integer square root of a wide nonnegative value.
pub fn isqrt128(n: i128) -> (r: i128)
    requires
        0 <= n < 0x400_0000_0000_0000_0000_0000_0000_0000,
    ensures
        is_sqrt_of(n as int, r as int),
        r as int == sqrt_s(n as int),
{
    let mut lo: i128 = 0;
    let mut hi: i128 = 0x2000_0000_0000_0000;
    proof {
        assert((hi + 1) * (hi + 1) > n);
    }
    while lo < hi
        invariant
            0 <= lo <= hi <= 0x2000_0000_0000_0000,
            lo * lo <= n,
            n < (hi + 1) * (hi + 1),
            n < 0x400_0000_0000_0000_0000_0000_0000_0000,
        decreases hi - lo,
    {
        let gap: u128 = (hi - lo + 1) as u128;
        let mid: i128 = lo + (gap / 2) as i128;
        proof {
            assert(lo < mid <= hi);
            assert(mid * mid <= 0x2000_0000_0000_0000 * 0x2000_0000_0000_0000)
                by (nonlinear_arith)
                requires
                    0 <= mid <= 0x2000_0000_0000_0000,
            ;
        }
        if mid * mid <= n {
            lo = mid;
        } else {
            hi = mid - 1;
            proof {
                assert(n < (hi + 1) * (hi + 1));
            }
        }
    }
    proof {
        lemma_sqrt_unique(n as int, lo as int);
    }
    lo
}

} // verus!
