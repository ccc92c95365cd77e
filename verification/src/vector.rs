//! Three-component vectors over fixed-point scalars.
//!
//! A vector doubles as a point and as an RGB color. Geometric operations
//! (`add`, `sub`, `dot`, `cross`, `scale`, `reflect`, `normalized`) are
//! exact over the fixed-point model; the color operations (`comp_add`,
//! `comp_mul`) saturate and are total.

use vstd::prelude::*;
use crate::fixed::{
    FX_ONE, GEOM_LIMIT, REFLECT_LIMIT, ZERO_TOL, fx_mul_s, sat_add_s, sat_mul_s, sqrt_s,
    lemma_div_bound, fdiv128, isqrt128, sat_add, sat_mul,
};

verus! {

/// Mathematical view of a vector: unbounded integer components.
pub ghost struct V3 {
    pub x: int,
    pub y: int,
    pub z: int,
}

/// All three components lie in `[-b, b]`.
pub open spec fn bounded(v: V3, b: int) -> bool {
    &&& -b <= v.x <= b
    &&& -b <= v.y <= b
    &&& -b <= v.z <= b
}

pub open spec fn v3_zero() -> V3 {
    V3 { x: 0, y: 0, z: 0 }
}

pub open spec fn v3_add(a: V3, b: V3) -> V3 {
    V3 { x: a.x + b.x, y: a.y + b.y, z: a.z + b.z }
}

pub open spec fn v3_sub(a: V3, b: V3) -> V3 {
    V3 { x: a.x - b.x, y: a.y - b.y, z: a.z - b.z }
}

/// Fixed-point dot product (one rounding step, toward minus infinity).
pub open spec fn dot_s(a: V3, b: V3) -> int {
    (a.x * b.x + a.y * b.y + a.z * b.z) / (FX_ONE as int)
}

/// Fixed-point cross product (one rounding step per component).
pub open spec fn cross_s(a: V3, b: V3) -> V3 {
    V3 {
        x: (a.y * b.z - a.z * b.y) / (FX_ONE as int),
        y: (a.z * b.x - a.x * b.z) / (FX_ONE as int),
        z: (a.x * b.y - a.y * b.x) / (FX_ONE as int),
    }
}

/// Fixed-point scaling by a scalar.
pub open spec fn scale_s(v: V3, s: int) -> V3 {
    V3 { x: fx_mul_s(v.x, s), y: fx_mul_s(v.y, s), z: fx_mul_s(v.z, s) }
}

/// Saturating component-wise sum (color accumulation).
pub open spec fn comp_add_s(a: V3, b: V3) -> V3 {
    V3 { x: sat_add_s(a.x, b.x), y: sat_add_s(a.y, b.y), z: sat_add_s(a.z, b.z) }
}

/// Saturating component-wise product (color tinting).
pub open spec fn comp_mul_s(a: V3, b: V3) -> V3 {
    V3 { x: sat_mul_s(a.x, b.x), y: sat_mul_s(a.y, b.y), z: sat_mul_s(a.z, b.z) }
}

/// Squared length of a vector.
pub open spec fn len_sqr_s(v: V3) -> int {
    dot_s(v, v)
}

/// Fixed-point length: the square root of the squared length, rescaled.
pub open spec fn len_s(v: V3) -> int {
    sqrt_s(len_sqr_s(v) * (FX_ONE as int))
}

/// Normalization: each component divided by the length.
pub open spec fn norm_s(v: V3) -> V3 {
    V3 {
        x: (v.x * (FX_ONE as int)) / len_s(v),
        y: (v.y * (FX_ONE as int)) / len_s(v),
        z: (v.z * (FX_ONE as int)) / len_s(v),
    }
}

/// Division of each component by a positive scalar.
pub open spec fn div_scalar_s(v: V3, s: int) -> V3 {
    V3 {
        x: (v.x * (FX_ONE as int)) / s,
        y: (v.y * (FX_ONE as int)) / s,
        z: (v.z * (FX_ONE as int)) / s,
    }
}

/// Reflection of `v` about `n`: `2 * dot(v, n) * n - v`.
pub open spec fn reflect_s(v: V3, n: V3) -> V3 {
    v3_sub(scale_s(n, 2 * dot_s(v, n)), v)
}

/// Every component is within the zero tolerance of zero.
pub open spec fn is_zero_s(v: V3) -> bool {
    &&& -(ZERO_TOL as int) < v.x < ZERO_TOL as int
    &&& -(ZERO_TOL as int) < v.y < ZERO_TOL as int
    &&& -(ZERO_TOL as int) < v.z < ZERO_TOL as int
}

/// A fixed-point vector, also used for points and RGB colors.
#[derive(Clone, Copy, PartialEq, Eq, Structural, Debug)]
pub struct Vector3d {
    pub x: i64,
    pub y: i64,
    pub z: i64,
}

impl View for Vector3d {
    type V = V3;

    open spec fn view(&self) -> V3 {
        V3 { x: self.x as int, y: self.y as int, z: self.z as int }
    }
}

impl Vector3d {
    pub fn new(x: i64, y: i64, z: i64) -> (r: Vector3d)
        ensures
            r@ == (V3 { x: x as int, y: y as int, z: z as int }),
    {
        Vector3d { x, y, z }
    }

    pub fn zero() -> (r: Vector3d)
        ensures
            r@ == v3_zero(),
    {
        Vector3d { x: 0, y: 0, z: 0 }
    }

    pub fn one() -> (r: Vector3d)
        ensures
            r@ == (V3 { x: FX_ONE as int, y: FX_ONE as int, z: FX_ONE as int }),
    {
        Vector3d { x: FX_ONE, y: FX_ONE, z: FX_ONE }
    }

    pub fn add(self, rhs: Vector3d) -> (r: Vector3d)
        requires
            bounded(self@, GEOM_LIMIT as int),
            bounded(rhs@, GEOM_LIMIT as int),
        ensures
            r@ == v3_add(self@, rhs@),
    {
        Vector3d { x: self.x + rhs.x, y: self.y + rhs.y, z: self.z + rhs.z }
    }

    pub fn sub(self, rhs: Vector3d) -> (r: Vector3d)
        requires
            bounded(self@, GEOM_LIMIT as int),
            bounded(rhs@, GEOM_LIMIT as int),
        ensures
            r@ == v3_sub(self@, rhs@),
    {
        Vector3d { x: self.x - rhs.x, y: self.y - rhs.y, z: self.z - rhs.z }
    }

    pub fn dot(left: Vector3d, right: Vector3d) -> (r: i64)
        requires
            bounded(left@, GEOM_LIMIT as int),
            bounded(right@, GEOM_LIMIT as int),
        ensures
            r as int == dot_s(left@, right@),
    {
        proof {
            lemma_prod_bound(left@.x, right@.x, GEOM_LIMIT as int);
            lemma_prod_bound(left@.y, right@.y, GEOM_LIMIT as int);
            lemma_prod_bound(left@.z, right@.z, GEOM_LIMIT as int);
        }
        let s: i128 = (left.x as i128) * (right.x as i128)
            + (left.y as i128) * (right.y as i128)
            + (left.z as i128) * (right.z as i128);
        proof {
            lemma_div_bound(s as int, FX_ONE as int, 3int * 0x400_0000_0000_0000);
        }
        let q: i128 = fdiv128(s, FX_ONE as i128);
        q as i64
    }

    pub fn cross(left: Vector3d, right: Vector3d) -> (r: Vector3d)
        requires
            bounded(left@, GEOM_LIMIT as int),
            bounded(right@, GEOM_LIMIT as int),
        ensures
            r@ == cross_s(left@, right@),
    {
        let x = cross_term(left.y, right.z, left.z, right.y);
        let y = cross_term(left.z, right.x, left.x, right.z);
        let z = cross_term(left.x, right.y, left.y, right.x);
        Vector3d { x, y, z }
    }

    pub fn scale(self, s: i64) -> (r: Vector3d)
        requires
            bounded(self@, GEOM_LIMIT as int),
            -(GEOM_LIMIT as int) <= s as int <= GEOM_LIMIT as int,
        ensures
            r@ == scale_s(self@, s as int),
    {
        Vector3d {
            x: scale_term(self.x, s),
            y: scale_term(self.y, s),
            z: scale_term(self.z, s),
        }
    }

    /// Saturating component-wise sum, for accumulating colors.
    pub fn comp_add(self, rhs: Vector3d) -> (r: Vector3d)
        ensures
            r@ == comp_add_s(self@, rhs@),
    {
        Vector3d {
            x: sat_add(self.x, rhs.x),
            y: sat_add(self.y, rhs.y),
            z: sat_add(self.z, rhs.z),
        }
    }

    /// Saturating component-wise product, for tinting colors.
    pub fn comp_mul(self, rhs: Vector3d) -> (r: Vector3d)
        ensures
            r@ == comp_mul_s(self@, rhs@),
    {
        Vector3d {
            x: sat_mul(self.x, rhs.x),
            y: sat_mul(self.y, rhs.y),
            z: sat_mul(self.z, rhs.z),
        }
    }

    pub fn len_sqr(&self) -> (r: i64)
        requires
            bounded(self@, GEOM_LIMIT as int),
        ensures
            r as int == len_sqr_s(self@),
            r >= 0,
    {
        let r = Vector3d::dot(*self, *self);
        proof {
            lemma_len_sqr_nonneg(self@);
        }
        r
    }

    pub fn len(&self) -> (r: i64)
        requires
            bounded(self@, GEOM_LIMIT as int),
        ensures
            r as int == len_s(self@),
            r >= 0,
    {
        let ls = self.len_sqr();
        let w: i128 = isqrt128((ls as i128) * (FX_ONE as i128));
        proof {
            assert(w as int <= 0x100_0000_0000) by (nonlinear_arith)
                requires
                    0 <= w,
                    (w as int) * (w as int) <= 0x7fff_ffff_ffff_ffff * 0x10000,
            ;
        }
        w as i64
    }

    pub fn normalized(&self) -> (r: Vector3d)
        requires
            bounded(self@, GEOM_LIMIT as int),
            len_sqr_s(self@) >= 1,
        ensures
            r@ == norm_s(self@),
    {
        let l = self.len();
        proof {
            lemma_len_positive(self@);
        }
        Vector3d {
            x: norm_term(self.x, l),
            y: norm_term(self.y, l),
            z: norm_term(self.z, l),
        }
    }

    pub fn div_scalar(self, s: i64) -> (r: Vector3d)
        requires
            bounded(self@, GEOM_LIMIT as int),
            s >= 1,
        ensures
            r@ == div_scalar_s(self@, s as int),
    {
        Vector3d {
            x: norm_term(self.x, s),
            y: norm_term(self.y, s),
            z: norm_term(self.z, s),
        }
    }

    pub fn is_zero(&self) -> (r: bool)
        ensures
            r == is_zero_s(self@),
    {
        -ZERO_TOL < self.x && self.x < ZERO_TOL
            && -ZERO_TOL < self.y && self.y < ZERO_TOL
            && -ZERO_TOL < self.z && self.z < ZERO_TOL
    }

    pub fn reflect(self, normal: Vector3d) -> (r: Vector3d)
        requires
            bounded(self@, REFLECT_LIMIT as int),
            bounded(normal@, REFLECT_LIMIT as int),
        ensures
            r@ == reflect_s(self@, normal@),
    {
        let d = Vector3d::dot(self, normal);
        proof {
            lemma_dot_in_reflect_range(self@, normal@);
        }
        let t: i128 = 2 * (d as i128);
        Vector3d {
            x: reflect_term(normal.x, t, self.x),
            y: reflect_term(normal.y, t, self.y),
            z: reflect_term(normal.z, t, self.z),
        }
    }
}

/// A product of scalars with asymmetric bounds.
pub proof fn lemma_prod_bound2(a: int, b: int, ba: int, bb: int)
    requires
        0 <= ba,
        0 <= bb,
        -ba <= a <= ba,
        -bb <= b <= bb,
    ensures
        -(ba * bb) <= a * b <= ba * bb,
{
    assert(-(ba * bb) <= a * b <= ba * bb) by (nonlinear_arith)
        requires
            0 <= ba,
            0 <= bb,
            -ba <= a <= ba,
            -bb <= b <= bb,
    ;
}

/// Scaling a bounded vector by a bounded scalar stays bounded, provided
/// `m` absorbs the product of the bounds after rescaling.
pub proof fn lemma_scale_bounded(v: V3, s: int, bv: int, bs: int, m: int)
    requires
        0 <= bv,
        0 <= bs,
        0 <= m,
        bounded(v, bv),
        -bs <= s <= bs,
        bv * bs <= m * (FX_ONE as int),
    ensures
        bounded(scale_s(v, s), m),
{
    lemma_prod_bound2(v.x, s, bv, bs);
    lemma_prod_bound2(v.y, s, bv, bs);
    lemma_prod_bound2(v.z, s, bv, bs);
    lemma_div_bound(v.x * s, FX_ONE as int, m);
    lemma_div_bound(v.y * s, FX_ONE as int, m);
    lemma_div_bound(v.z * s, FX_ONE as int, m);
}

/// The dot product of vectors bounded by `g` is bounded by `m` when
/// `m` absorbs `3 * g * g` after rescaling.
pub proof fn lemma_dot_bound(a: V3, b: V3, g: int, m: int)
    requires
        0 <= g,
        0 <= m,
        bounded(a, g),
        bounded(b, g),
        3 * (g * g) <= m * (FX_ONE as int),
    ensures
        -m <= dot_s(a, b) <= m,
{
    lemma_prod_bound(a.x, b.x, g);
    lemma_prod_bound(a.y, b.y, g);
    lemma_prod_bound(a.z, b.z, g);
    lemma_div_bound(a.x * b.x + a.y * b.y + a.z * b.z, FX_ONE as int, m);
}

/// Runtime check that a direction lies within the normalized-direction
/// cap (used to reject quantization degeneracies after normalizing).
pub fn in_unit_range(v: &Vector3d) -> (r: bool)
    ensures
        r == bounded(v@, crate::fixed::NORMAL_LIMIT as int),
{
    -crate::fixed::NORMAL_LIMIT <= v.x && v.x <= crate::fixed::NORMAL_LIMIT
        && -crate::fixed::NORMAL_LIMIT <= v.y && v.y <= crate::fixed::NORMAL_LIMIT
        && -crate::fixed::NORMAL_LIMIT <= v.z && v.z <= crate::fixed::NORMAL_LIMIT
}

/// The dot product of vectors with asymmetric bounds.
pub proof fn lemma_dot_bound2(a: V3, b: V3, ba: int, bb: int, m: int)
    requires
        0 <= ba,
        0 <= bb,
        0 <= m,
        bounded(a, ba),
        bounded(b, bb),
        3 * (ba * bb) <= m * (FX_ONE as int),
    ensures
        -m <= dot_s(a, b) <= m,
{
    lemma_prod_bound2(a.x, b.x, ba, bb);
    lemma_prod_bound2(a.y, b.y, ba, bb);
    lemma_prod_bound2(a.z, b.z, ba, bb);
    lemma_div_bound(a.x * b.x + a.y * b.y + a.z * b.z, FX_ONE as int, m);
}

/// Reflecting one normal-range direction about another stays well within
/// the exact-arithmetic range.
pub proof fn lemma_reflect_bounded(v: V3, n: V3)
    requires
        bounded(v, crate::fixed::NORMAL_LIMIT as int),
        bounded(n, crate::fixed::NORMAL_LIMIT as int),
    ensures
        bounded(reflect_s(v, n), 0x400_0000),
{
    lemma_dot_bound(v, n, crate::fixed::NORMAL_LIMIT as int, 0x40_0000);
    lemma_scale_bounded(n, 2 * dot_s(v, n), crate::fixed::NORMAL_LIMIT as int, 0x80_0000, 0x200_0000);
}

/// A product of scalars bounded by `g` is bounded by `g * g`.
pub proof fn lemma_prod_bound(a: int, b: int, g: int)
    requires
        0 <= g,
        -g <= a <= g,
        -g <= b <= g,
    ensures
        -(g * g) <= a * b <= g * g,
{
    assert(-(g * g) <= a * b <= g * g) by (nonlinear_arith)
        requires
            0 <= g,
            -g <= a <= g,
            -g <= b <= g,
    ;
}

proof fn lemma_len_sqr_nonneg(v: V3)
    ensures
        len_sqr_s(v) >= 0,
{
    assert(v.x * v.x + v.y * v.y + v.z * v.z >= 0) by (nonlinear_arith);
    vstd::arithmetic::div_mod::lemma_div_pos_is_pos(
        v.x * v.x + v.y * v.y + v.z * v.z,
        FX_ONE as int,
    );
}

/// A vector of squared length at least one quantum has positive length.
proof fn lemma_len_positive(v: V3)
    requires
        len_sqr_s(v) >= 1,
    ensures
        len_s(v) >= 256,
{
    let n = len_sqr_s(v) * (FX_ONE as int);
    let s = sqrt_s(n);
    assert(n >= FX_ONE as int) by (nonlinear_arith)
        requires
            len_sqr_s(v) >= 1,
            n == len_sqr_s(v) * (FX_ONE as int),
    ;
    assert(crate::fixed::is_sqrt_of(n, s)) by {
        lemma_sqrt_exists(n);
    }
    assert(s >= 256) by (nonlinear_arith)
        requires
            0 <= s,
            n < (s + 1) * (s + 1),
            n >= 65536,
    ;
}

/// An integer square root exists for every nonnegative value.
proof fn lemma_sqrt_exists(n: int)
    requires
        0 <= n,
    ensures
        crate::fixed::is_sqrt_of(n, sqrt_s(n)),
    decreases n,
{
    if n == 0 {
        assert(crate::fixed::is_sqrt_of(0, 0));
        assert(crate::fixed::is_sqrt_of(n, sqrt_s(n))) by {
            assert(exists|r: int| crate::fixed::is_sqrt_of(n, r));
        }
    } else {
        lemma_sqrt_exists(n - 1);
        let p = sqrt_s(n - 1);
        if n < (p + 1) * (p + 1) {
            assert(crate::fixed::is_sqrt_of(n, p));
        } else {
            assert(n == (p + 1) * (p + 1));
            assert(crate::fixed::is_sqrt_of(n, p + 1)) by (nonlinear_arith)
                requires
                    0 <= p,
                    n == (p + 1) * (p + 1),
            ;
        }
        assert(exists|r: int| crate::fixed::is_sqrt_of(n, r));
    }
}

proof fn lemma_dot_in_reflect_range(a: V3, b: V3)
    requires
        bounded(a, REFLECT_LIMIT as int),
        bounded(b, REFLECT_LIMIT as int),
    ensures
        -0x3000_0000_0000 <= dot_s(a, b) <= 0x3000_0000_0000,
{
    lemma_prod_bound(a.x, b.x, REFLECT_LIMIT as int);
    lemma_prod_bound(a.y, b.y, REFLECT_LIMIT as int);
    lemma_prod_bound(a.z, b.z, REFLECT_LIMIT as int);
    lemma_div_bound(
        a.x * b.x + a.y * b.y + a.z * b.z,
        FX_ONE as int,
        0x3000_0000_0000,
    );
}

/// One component of the cross product: `(a * b - c * d) / FX_ONE`.
fn cross_term(a: i64, b: i64, c: i64, d: i64) -> (r: i64)
    requires
        -(GEOM_LIMIT as int) <= a as int <= GEOM_LIMIT as int,
        -(GEOM_LIMIT as int) <= b as int <= GEOM_LIMIT as int,
        -(GEOM_LIMIT as int) <= c as int <= GEOM_LIMIT as int,
        -(GEOM_LIMIT as int) <= d as int <= GEOM_LIMIT as int,
    ensures
        r as int == (a as int * b as int - c as int * d as int) / (FX_ONE as int),
{
    proof {
        lemma_prod_bound(a as int, b as int, GEOM_LIMIT as int);
        lemma_prod_bound(c as int, d as int, GEOM_LIMIT as int);
    }
    let s: i128 = (a as i128) * (b as i128) - (c as i128) * (d as i128);
    proof {
        lemma_div_bound(s as int, FX_ONE as int, 2int * 0x400_0000_0000_0000);
    }
    let q: i128 = fdiv128(s, FX_ONE as i128);
    q as i64
}

/// One component of scaling: `(a * s) / FX_ONE`.
fn scale_term(a: i64, s: i64) -> (r: i64)
    requires
        -(GEOM_LIMIT as int) <= a as int <= GEOM_LIMIT as int,
        -(GEOM_LIMIT as int) <= s as int <= GEOM_LIMIT as int,
    ensures
        r as int == fx_mul_s(a as int, s as int),
{
    proof {
        lemma_prod_bound(a as int, s as int, GEOM_LIMIT as int);
    }
    let p: i128 = (a as i128) * (s as i128);
    proof {
        lemma_div_bound(p as int, FX_ONE as int, 0x400_0000_0000_0000);
    }
    let q: i128 = fdiv128(p, FX_ONE as i128);
    q as i64
}

/// One component of normalization: `(a * FX_ONE) / l`.
fn norm_term(a: i64, l: i64) -> (r: i64)
    requires
        -(GEOM_LIMIT as int) <= a as int <= GEOM_LIMIT as int,
        l >= 1,
    ensures
        r as int == (a as int * FX_ONE as int) / (l as int),
{
    let n: i128 = (a as i128) * (FX_ONE as i128);
    proof {
        assert(-0x20_0000_0000_0000 <= n as int <= 0x20_0000_0000_0000) by (nonlinear_arith)
            requires
                n as int == (a as int) * 65536,
                -0x20_0000_0000 <= a as int <= 0x20_0000_0000,
        ;
        assert(0x20_0000_0000_0000 * (l as int) >= 0x20_0000_0000_0000) by (nonlinear_arith)
            requires
                l as int >= 1,
        ;
        lemma_div_bound(n as int, l as int, 0x20_0000_0000_0000);
    }
    let q: i128 = fdiv128(n, l as i128);
    q as i64
}

/// One component of reflection: `(n * t) / FX_ONE - v`.
fn reflect_term(n: i64, t: i128, v: i64) -> (r: i64)
    requires
        -(REFLECT_LIMIT as int) <= n as int <= REFLECT_LIMIT as int,
        -(REFLECT_LIMIT as int) <= v as int <= REFLECT_LIMIT as int,
        -0x6000_0000_0000 <= t as int <= 0x6000_0000_0000,
    ensures
        r as int == fx_mul_s(n as int, t as int) - v as int,
{
    proof {
        assert(-(0x6000_0000_0000 * 0x4000_0000) <= (n as int) * (t as int)
            <= 0x6000_0000_0000 * 0x4000_0000) by (nonlinear_arith)
            requires
                -(REFLECT_LIMIT as int) <= n as int <= REFLECT_LIMIT as int,
                -0x6000_0000_0000 <= t as int <= 0x6000_0000_0000,
        ;
    }
    let p: i128 = (n as i128) * t;
    proof {
        lemma_div_bound(p as int, FX_ONE as int, 0x1800_0000_0000_0000);
    }
    let q: i128 = fdiv128(p, FX_ONE as i128);
    (q as i64) - v
}

} // verus!
