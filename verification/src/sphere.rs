//! Spheres and the ray-sphere intersection test.
//!
//! The intersection solves the half-discriminant quadratic
//! `a t^2 + 2 b t + c = 0` over the fixed-point model: with
//! `oc = origin - center`, `a = dot(dir, dir)`, `b = dot(oc, dir)` and
//! `c = dot(oc, oc) - r^2`, a root is accepted only when the discriminant
//! is strictly positive (a tangent ray misses), the near root is tried
//! first, and an accepted root must lie strictly inside `(t_min, t_max)`.

use vstd::prelude::*;
use crate::vector::{
    Vector3d, V3, v3_sub, dot_s, bounded, lemma_dot_bound, lemma_prod_bound2,
};
use crate::fixed::{
    FX_ONE, MAX_COORD, POINT_LIMIT, NORMAL_LIMIT, HIT_LIMIT, GEOM_LIMIT, fx_mul_s, sqrt_s,
    fx_mul, fdiv128, isqrt128, lemma_div_bound,
};
use crate::ray::{Ray, RayV, point_at_s};
use crate::material::{Material, MatV};
use crate::scene::{HitRecord, HitRecV, view_opt};

verus! {

/// Mathematical view of a sphere.
pub ghost struct SphereV {
    pub center: V3,
    pub radius: int,
    pub material: MatV,
}

/// A spherical primitive: center, positive radius, owned material.
#[derive(Clone, Copy, PartialEq, Eq, Structural, Debug)]
pub struct Sphere {
    pub center: Vector3d,
    pub radius: i64,
    pub material: Material,
}

impl View for Sphere {
    type V = SphereV;

    open spec fn view(&self) -> SphereV {
        SphereV { center: self.center@, radius: self.radius as int, material: self.material@ }
    }
}

/// A sphere the intersection contracts speak about: its center is in the
/// scene range and its radius is positive (at least one quantum).
pub open spec fn wf_sphere(s: SphereV) -> bool {
    &&& bounded(s.center, MAX_COORD as int)
    &&& 1 <= s.radius <= MAX_COORD as int
}

/// Quadratic coefficient `a = dot(dir, dir)`.
pub open spec fn sph_a(r: RayV) -> int {
    dot_s(r.direction, r.direction)
}

/// The vector from the sphere's center to the ray's origin.
pub open spec fn sph_oc(s: SphereV, r: RayV) -> V3 {
    v3_sub(r.origin, s.center)
}

/// Half-coefficient `b = dot(oc, dir)`.
pub open spec fn sph_b(s: SphereV, r: RayV) -> int {
    dot_s(sph_oc(s, r), r.direction)
}

/// Constant coefficient `c = dot(oc, oc) - r^2`.
pub open spec fn sph_c(s: SphereV, r: RayV) -> int {
    dot_s(sph_oc(s, r), sph_oc(s, r)) - fx_mul_s(s.radius, s.radius)
}

/// Half-discriminant `b^2 - a c` (carried at double scale).
pub open spec fn sph_disc(s: SphereV, r: RayV) -> int {
    sph_b(s, r) * sph_b(s, r) - sph_a(r) * sph_c(s, r)
}

/// The near root `(-b - sqrt(disc)) / a`.
pub open spec fn sph_near(s: SphereV, r: RayV) -> int {
    ((-sph_b(s, r) - sqrt_s(sph_disc(s, r))) * (FX_ONE as int)) / sph_a(r)
}

/// The far root `(-b + sqrt(disc)) / a`.
pub open spec fn sph_far(s: SphereV, r: RayV) -> int {
    ((-sph_b(s, r) + sqrt_s(sph_disc(s, r))) * (FX_ONE as int)) / sph_a(r)
}

/// The outward normal at a surface point: `(p - center) / radius`.
pub open spec fn sphere_normal_s(s: SphereV, p: V3) -> V3 {
    V3 {
        x: ((p.x - s.center.x) * (FX_ONE as int)) / s.radius,
        y: ((p.y - s.center.y) * (FX_ONE as int)) / s.radius,
        z: ((p.z - s.center.z) * (FX_ONE as int)) / s.radius,
    }
}

/// The hit record produced for an accepted root `t`.
pub open spec fn sph_record_s(s: SphereV, r: RayV, t: int) -> HitRecV {
    HitRecV {
        t: t,
        point: point_at_s(r, t),
        normal: sphere_normal_s(s, point_at_s(r, t)),
        material: s.material,
    }
}

/// The record for root `t` stays within the representable ranges.
pub open spec fn rep_ok_s(s: SphereV, r: RayV, t: int) -> bool {
    &&& bounded(point_at_s(r, t), POINT_LIMIT as int)
    &&& bounded(sphere_normal_s(s, point_at_s(r, t)), NORMAL_LIMIT as int)
}

/// The candidate hit of a sphere past `t_min`, independent of the upper
/// interval bound: the near root if it lies past `t_min`, else the far
/// root, rejected when its record leaves the representable ranges.
pub open spec fn sph_cand(s: SphereV, r: RayV, t_min: int) -> Option<HitRecV> {
    if sph_a(r) >= 1 && sph_disc(s, r) > 0 {
        if sph_near(s, r) > t_min {
            if rep_ok_s(s, r, sph_near(s, r)) {
                Some(sph_record_s(s, r, sph_near(s, r)))
            } else {
                None
            }
        } else if sph_far(s, r) > t_min {
            if rep_ok_s(s, r, sph_far(s, r)) {
                Some(sph_record_s(s, r, sph_far(s, r)))
            } else {
                None
            }
        } else {
            None
        }
    } else {
        None
    }
}

/// The hit of a sphere inside `(t_min, t_max)`: the candidate, filtered
/// by the upper bound.
pub open spec fn sph_hit_s(s: SphereV, r: RayV, t_min: int, t_max: int) -> Option<HitRecV> {
    match sph_cand(s, r, t_min) {
        Some(h) => if h.t < t_max {
            Some(h)
        } else {
            None
        },
        None => None,
    }
}

impl Sphere {
    pub fn new(center: Vector3d, radius: i64, material: Material) -> (r: Sphere)
        requires
            bounded(center@, MAX_COORD as int),
            1 <= radius <= MAX_COORD,
        ensures
            r@ == (SphereV { center: center@, radius: radius as int, material: material@ }),
            wf_sphere(r@),
    {
        Sphere { center, radius, material }
    }

    /// The nearest intersection of `ray` with this sphere strictly inside
    /// `(t_min, t_max)`, or `None`.
    pub fn hit(&self, ray: &Ray, t_min: i64, t_max: i64) -> (result: Option<HitRecord>)
        requires
            wf_sphere(self@),
            bounded(ray@.origin, HIT_LIMIT as int),
            bounded(ray@.direction, HIT_LIMIT as int),
        ensures
            view_opt(result) == sph_hit_s(self@, ray@, t_min as int, t_max as int),
            result matches Some(rec) ==> bounded(rec@.point, POINT_LIMIT as int)
                && bounded(rec@.normal, NORMAL_LIMIT as int) && t_min < rec.t < t_max,
    {
        proof {
            lemma_oc_bounded(self@, ray@);
            lemma_dot_bound(ray@.direction, ray@.direction, HIT_LIMIT as int, 0x300_0000_0000_0000);
            lemma_dot_bound(sph_oc(self@, ray@), ray@.direction, GEOM_LIMIT as int, 0xC00_0000_0000_0000);
            lemma_dot_bound(sph_oc(self@, ray@), sph_oc(self@, ray@), GEOM_LIMIT as int, 0xC00_0000_0000_0000);
            lemma_prod_bound2(self@.radius, self@.radius, MAX_COORD as int, MAX_COORD as int);
            lemma_div_bound(self@.radius * self@.radius, FX_ONE as int, 0x4000_0000_0000);
        }
        let oc = ray.get_origin().sub(self.center);
        let dir = ray.get_direction();
        let a = Vector3d::dot(dir, dir);
        let b = Vector3d::dot(oc, dir);
        let c = Vector3d::dot(oc, oc) - fx_mul(self.radius, self.radius);
        if a < 1 {
            return None;
        }
        proof {
            lemma_prod_bound2(b as int, b as int, 0xC00_0000_0000_0000, 0xC00_0000_0000_0000);
            lemma_prod_bound2(a as int, c as int, 0x300_0000_0000_0000, 0x1000_0000_0000_0000);
        }
        let disc: i128 = (b as i128) * (b as i128) - (a as i128) * (c as i128);
        if disc <= 0 {
            return None;
        }
        let sq = isqrt128(disc);
        proof {
            lemma_sqrt_fits(disc as int, sq as int);
        }
        let near = fdiv128((-(b as i128) - sq) * (FX_ONE as i128), a as i128);
        proof {
            lemma_root_in_range(-(b as int) - sq as int, a as int);
        }
        if near > t_min as i128 {
            if near < t_max as i128 {
                self.make_record(ray, near)
            } else {
                None
            }
        } else {
            let far = fdiv128((-(b as i128) + sq) * (FX_ONE as i128), a as i128);
            proof {
                lemma_root_in_range(-(b as int) + sq as int, a as int);
            }
            if far > t_min as i128 && far < t_max as i128 {
                self.make_record(ray, far)
            } else {
                None
            }
        }
    }

    /// Build the hit record for the accepted root `t`, rejecting records
    /// that leave the representable point or normal ranges.
    fn make_record(&self, ray: &Ray, t: i128) -> (result: Option<HitRecord>)
        requires
            wf_sphere(self@),
            bounded(ray@.origin, HIT_LIMIT as int),
            bounded(ray@.direction, HIT_LIMIT as int),
            i64::MIN < t < i64::MAX,
        ensures
            view_opt(result) == (if rep_ok_s(self@, ray@, t as int) {
                Some(sph_record_s(self@, ray@, t as int))
            } else {
                Option::<HitRecV>::None
            }),
            result matches Some(rec) ==> bounded(rec@.point, POINT_LIMIT as int)
                && bounded(rec@.normal, NORMAL_LIMIT as int) && rec.t == t,
    {
        let px = point_comp(ray.get_origin().x, ray.get_direction().x, t);
        let py = point_comp(ray.get_origin().y, ray.get_direction().y, t);
        let pz = point_comp(ray.get_origin().z, ray.get_direction().z, t);
        if px < -POINT_LIMIT as i128 || px > POINT_LIMIT as i128 || py < -POINT_LIMIT as i128
            || py > POINT_LIMIT as i128 || pz < -POINT_LIMIT as i128 || pz > POINT_LIMIT as i128 {
            return None;
        }
        let nx = normal_comp(px as i64, self.center.x, self.radius);
        let ny = normal_comp(py as i64, self.center.y, self.radius);
        let nz = normal_comp(pz as i64, self.center.z, self.radius);
        if nx < -NORMAL_LIMIT as i128 || nx > NORMAL_LIMIT as i128 || ny < -NORMAL_LIMIT as i128
            || ny > NORMAL_LIMIT as i128 || nz < -NORMAL_LIMIT as i128
            || nz > NORMAL_LIMIT as i128 {
            return None;
        }
        Some(HitRecord {
            t: t as i64,
            point: Vector3d { x: px as i64, y: py as i64, z: pz as i64 },
            normal: Vector3d { x: nx as i64, y: ny as i64, z: nz as i64 },
            material: self.material,
        })
    }
}

/// One coordinate of `origin + t * direction`, computed wide.
fn point_comp(o: i64, d: i64, t: i128) -> (r: i128)
    requires
        -(HIT_LIMIT as int) <= d as int <= HIT_LIMIT as int,
        i64::MIN < t < i64::MAX,
    ensures
        r as int == o as int + fx_mul_s(d as int, t as int),
{
    proof {
        lemma_prod_bound2(d as int, t as int, HIT_LIMIT as int, i64::MAX as int);
        lemma_div_bound(
            (d as int) * (t as int),
            FX_ONE as int,
            0x10_0000_0000int * 0x8000_0000_0000,
        );
    }
    let p: i128 = (d as i128) * t;
    let q: i128 = fdiv128(p, FX_ONE as i128);
    (o as i128) + q
}

/// One coordinate of the outward normal `(p - c) * FX_ONE / radius`,
/// computed wide.
fn normal_comp(p: i64, c: i64, radius: i64) -> (r: i128)
    requires
        -(POINT_LIMIT as int) <= p as int <= POINT_LIMIT as int,
        -(MAX_COORD as int) <= c as int <= MAX_COORD as int,
        1 <= radius,
    ensures
        r as int == ((p as int - c as int) * (FX_ONE as int)) / (radius as int),
{
    let diff: i128 = (p as i128) - (c as i128);
    proof {
        assert(-0x4_8000_0000 <= diff as int <= 0x4_8000_0000);
        assert(-(0x8_8000_0000_0000_0000) <= (diff as int) * 65536 <= 0x8_8000_0000_0000_0000)
            by (nonlinear_arith)
            requires
                -0x4_8000_0000 <= diff as int <= 0x4_8000_0000,
        ;
    }
    let n: i128 = diff * (FX_ONE as i128);
    proof {
        assert(0x8_8000_0000_0000_0000 * (radius as int) >= 0x8_8000_0000_0000_0000)
            by (nonlinear_arith)
            requires
                radius as int >= 1,
        ;
        lemma_div_bound(n as int, radius as int, 0x8_8000_0000_0000_0000);
    }
    fdiv128(n, radius as i128)
}

/// The origin-to-center offset stays within the exact-arithmetic range.
proof fn lemma_oc_bounded(s: SphereV, r: RayV)
    requires
        wf_sphere(s),
        bounded(r.origin, HIT_LIMIT as int),
    ensures
        bounded(sph_oc(s, r), GEOM_LIMIT as int),
{
}

/// The square root of a discriminant in range fits comfortably wide.
proof fn lemma_sqrt_fits(n: int, sq: int)
    requires
        crate::fixed::is_sqrt_of(n, sq),
        n <= 0x2000_0000_0000_0000_0000_0000_0000_0000,
    ensures
        0 <= sq <= 0x6000_0000_0000_0000,
{
    assert(sq <= 0x6000_0000_0000_0000) by (nonlinear_arith)
        requires
            0 <= sq,
            sq * sq <= 0x2000_0000_0000_0000_0000_0000_0000_0000,
    ;
}

/// A root numerator rescaled by `FX_ONE` divides safely by `a >= 1`.
proof fn lemma_root_in_range(num: int, a: int)
    requires
        -(0x7000_0000_0000_0000) <= num <= 0x7000_0000_0000_0000,
        1 <= a,
    ensures
        i128::MIN < (num * (FX_ONE as int)) / a < i128::MAX,
{
    assert(-(0x7_0000_0000_0000_0000_0000) <= num * 65536 <= 0x7_0000_0000_0000_0000_0000)
        by (nonlinear_arith)
        requires
            -(0x7000_0000_0000_0000) <= num <= 0x7000_0000_0000_0000,
    ;
    assert(0x7_0000_0000_0000_0000_0000 * a >= 0x7_0000_0000_0000_0000_0000)
        by (nonlinear_arith)
        requires
            1 <= a,
    ;
    lemma_div_bound(num * (FX_ONE as int), a, 0x7_0000_0000_0000_0000_0000);
}

/// A tangent ray misses: with the discriminant at or below zero the
/// intersection reports no hit, whatever the interval.
pub proof fn lemma_tangent_misses(s: SphereV, r: RayV, t_min: int, t_max: int)
    requires
        sph_disc(s, r) <= 0,
    ensures
        sph_hit_s(s, r, t_min, t_max) is None,
{
}

/// When the near root falls at or before `t_min` but the far root lies
/// strictly inside `(t_min, t_max)` (and its record is representable),
/// the intersection is accepted at the far root.
pub proof fn lemma_far_root_accepted(s: SphereV, r: RayV, t_min: int, t_max: int)
    requires
        sph_a(r) >= 1,
        sph_disc(s, r) > 0,
        sph_near(s, r) <= t_min,
        t_min < sph_far(s, r) < t_max,
        rep_ok_s(s, r, sph_far(s, r)),
    ensures
        sph_hit_s(s, r, t_min, t_max) == Some(sph_record_s(s, r, sph_far(s, r))),
{
}

/// A head-on hit: a unit ray along the axis from `(0, 0, -d)` at a sphere
/// of radius `rad` centered at the origin hits at exactly the distance to
/// the surface, `t = d - rad`. The hit point is `(0, 0, -rad)`, the hit
/// normal is the unit vector `(0, 0, -1)`, it equals the normalized
/// point-minus-center vector, and its length is exactly one.
///
/// `d` and `rad` are multiples of 256 so that their squares land exactly
/// on the fixed-point grid.
pub proof fn lemma_head_on_hit(s: SphereV, r: RayV, d: int, rad: int, t_min: int, t_max: int)
    requires
        s.center == crate::vector::v3_zero(),
        s.radius == rad,
        r.origin == (V3 { x: 0, y: 0, z: -d }),
        r.direction == (V3 { x: 0, y: 0, z: FX_ONE as int }),
        0 < rad < d <= MAX_COORD as int,
        rad % 256 == 0,
        d % 256 == 0,
        0 <= t_min < d - rad < t_max,
    ensures
        sph_hit_s(s, r, t_min, t_max) == Some(sph_record_s(s, r, d - rad)),
        sph_record_s(s, r, d - rad).t == d - rad,
        sph_record_s(s, r, d - rad).point == (V3 { x: 0, y: 0, z: -rad }),
        sph_record_s(s, r, d - rad).normal == (V3 { x: 0, y: 0, z: -(FX_ONE as int) }),
        sph_record_s(s, r, d - rad).normal == crate::vector::norm_s(
            v3_sub(sph_record_s(s, r, d - rad).point, s.center),
        ),
        crate::vector::len_s(sph_record_s(s, r, d - rad).normal) == FX_ONE as int,
{
    let one = FX_ONE as int;
    let kd = d / 256;
    let kr = rad / 256;
    vstd::arithmetic::div_mod::lemma_fundamental_div_mod(d, 256);
    vstd::arithmetic::div_mod::lemma_fundamental_div_mod(rad, 256);
    assert(d == 256 * kd);
    assert(rad == 256 * kr);
    assert(kr >= 1);

    // a = dot(dir, dir) = one
    assert(r.direction.x * r.direction.x + r.direction.y * r.direction.y
        + r.direction.z * r.direction.z == one * one);
    crate::fixed::lemma_div_exact(one * one, one, one);
    assert(sph_a(r) == one);

    // oc = origin; b = dot(oc, dir) = -d
    assert(sph_oc(s, r) == (V3 { x: 0, y: 0, z: -d }));
    assert((-d) * one == (-d) * one);
    crate::fixed::lemma_div_exact((-d) * one, one, -d);
    assert(sph_b(s, r) == -d);

    // c = d^2/one - rad^2/one = kd^2 - kr^2
    assert(d * d == (kd * kd) * one) by (nonlinear_arith)
        requires
            d == 256 * kd,
            one == 65536,
    ;
    crate::fixed::lemma_div_exact(d * d, one, kd * kd);
    assert(rad * rad == (kr * kr) * one) by (nonlinear_arith)
        requires
            rad == 256 * kr,
            one == 65536,
    ;
    crate::fixed::lemma_div_exact(rad * rad, one, kr * kr);
    assert((-d) * (-d) == d * d) by (nonlinear_arith);
    assert(sph_c(s, r) == kd * kd - kr * kr);

    // disc = b^2 - a c = rad^2
    assert(sph_disc(s, r) == d * d - one * (kd * kd - kr * kr));
    assert(d * d - one * (kd * kd - kr * kr) == rad * rad) by (nonlinear_arith)
        requires
            d * d == (kd * kd) * one,
            rad * rad == (kr * kr) * one,
    ;
    assert(sph_disc(s, r) == rad * rad);
    assert(sph_disc(s, r) > 0) by (nonlinear_arith)
        requires
            sph_disc(s, r) == rad * rad,
            rad >= 1,
    ;

    // sqrt(disc) = rad
    assert(rad * rad < (rad + 1) * (rad + 1)) by (nonlinear_arith)
        requires
            rad >= 1,
    ;
    assert(crate::fixed::is_sqrt_of(rad * rad, rad));
    crate::fixed::lemma_sqrt_unique(rad * rad, rad);
    assert(sqrt_s(sph_disc(s, r)) == rad);

    // near root = d - rad
    assert((-sph_b(s, r) - rad) * one == (d - rad) * one);
    crate::fixed::lemma_div_exact((d - rad) * one, one, d - rad);
    assert(sph_near(s, r) == d - rad);

    // the hit point is (0, 0, -rad)
    let t = d - rad;
    crate::fixed::lemma_div_exact(0, one, 0);
    assert(fx_mul_s(0, t) == 0) by {
        crate::fixed::lemma_div_exact(0 * t, one, 0);
    }
    assert(fx_mul_s(one, t) == t) by {
        assert(one * t == t * one) by (nonlinear_arith);
        crate::fixed::lemma_div_exact(one * t, one, t);
    }
    assert(point_at_s(r, t) == (V3 { x: 0, y: 0, z: -rad }));

    // the normal is (0, 0, -one)
    crate::fixed::lemma_div_exact(0 * one, rad, 0);
    assert(((-rad) - 0) * one == (-one) * rad) by (nonlinear_arith);
    crate::fixed::lemma_div_exact((-rad) * one, rad, -one);
    assert(sphere_normal_s(s, point_at_s(r, t)) == (V3 { x: 0, y: 0, z: -(one) }));

    // the record is representable and accepted
    assert(rep_ok_s(s, r, t));
    assert(sph_cand(s, r, t_min) == Some(sph_record_s(s, r, t)));
    assert(sph_hit_s(s, r, t_min, t_max) == Some(sph_record_s(s, r, t)));

    // the normal has exactly unit length
    let nrm = sph_record_s(s, r, t).normal;
    assert(nrm.x * nrm.x + nrm.y * nrm.y + nrm.z * nrm.z == one * one) by (nonlinear_arith)
        requires
            nrm == (V3 { x: 0, y: 0, z: -one }),
            one == 65536,
    ;
    crate::fixed::lemma_div_exact(one * one, one, one);
    assert(crate::vector::len_sqr_s(nrm) == one);
    assert(crate::fixed::is_sqrt_of(one * one, one)) by (nonlinear_arith)
        requires
            one == 65536,
    ;
    crate::fixed::lemma_sqrt_unique(one * one, one);
    assert(crate::vector::len_s(nrm) == one);

    // the normal equals the normalized point-minus-center vector
    let pc = v3_sub(sph_record_s(s, r, t).point, s.center);
    assert(pc == (V3 { x: 0, y: 0, z: -rad }));
    assert(pc.x * pc.x + pc.y * pc.y + pc.z * pc.z == (kr * kr) * one) by (nonlinear_arith)
        requires
            pc == (V3 { x: 0, y: 0, z: -rad }),
            rad == 256 * kr,
            one == 65536,
    ;
    crate::fixed::lemma_div_exact((kr * kr) * one, one, kr * kr);
    assert(crate::vector::len_sqr_s(pc) == kr * kr);
    assert((kr * kr) * one == rad * rad) by (nonlinear_arith)
        requires
            rad == 256 * kr,
            one == 65536,
    ;
    assert(crate::fixed::is_sqrt_of(rad * rad, rad)) by (nonlinear_arith)
        requires
            rad >= 1,
    ;
    crate::fixed::lemma_sqrt_unique(rad * rad, rad);
    assert(crate::vector::len_s(pc) == rad);
    assert(crate::vector::norm_s(pc).z == -one) by {
        assert((-rad) * one == (-one) * rad) by (nonlinear_arith);
        crate::fixed::lemma_div_exact((-rad) * one, rad, -one);
    }
    assert(crate::vector::norm_s(pc).x == 0) by {
        crate::fixed::lemma_div_exact(0 * one, rad, 0);
    }
    assert(crate::vector::norm_s(pc).y == 0) by {
        crate::fixed::lemma_div_exact(0 * one, rad, 0);
    }
    assert(crate::vector::norm_s(pc) == (V3 { x: 0, y: 0, z: -one }));
}

} // verus!
