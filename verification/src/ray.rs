//! Rays: an origin point and a direction vector.

use vstd::prelude::*;
use crate::vector::{Vector3d, V3, v3_add, scale_s, bounded};
use crate::fixed::{GEOM_LIMIT, DIR_LIMIT};

verus! {

/// Mathematical view of a ray.
pub ghost struct RayV {
    pub origin: V3,
    pub direction: V3,
}

/// The point `origin + t * direction` reached at parameter `t`.
pub open spec fn point_at_s(r: RayV, t: int) -> V3 {
    v3_add(r.origin, scale_s(r.direction, t))
}

/// Largest parameter accepted by `Ray::point_at`.
pub const POINT_AT_LIMIT: i64 = 0x2000_0000;

/// A ray; the direction need not be unit length.
#[derive(Clone, Copy, Debug)]
pub struct Ray {
    pub origin: Vector3d,
    pub direction: Vector3d,
}

impl View for Ray {
    type V = RayV;

    open spec fn view(&self) -> RayV {
        RayV { origin: self.origin@, direction: self.direction@ }
    }
}

impl Ray {
    pub fn new(origin: Vector3d, direction: Vector3d) -> (r: Ray)
        ensures
            r@ == (RayV { origin: origin@, direction: direction@ }),
    {
        Ray { origin, direction }
    }

    pub fn get_origin(&self) -> (r: Vector3d)
        ensures
            r@ == self@.origin,
    {
        self.origin
    }

    pub fn get_direction(&self) -> (r: Vector3d)
        ensures
            r@ == self@.direction,
    {
        self.direction
    }

    pub fn point_at(&self, t: i64) -> (r: Vector3d)
        requires
            bounded(self@.origin, GEOM_LIMIT as int),
            bounded(self@.direction, DIR_LIMIT as int),
            -(POINT_AT_LIMIT as int) <= t as int <= POINT_AT_LIMIT as int,
        ensures
            r@ == point_at_s(self@, t as int),
    {
        proof {
            lemma_point_at_scale_bounded(self@.direction, t as int);
        }
        self.origin.add(self.direction.scale(t))
    }
}

/// Scaling a tracer-range direction by a `point_at` parameter stays in
/// the range where exact vector addition is safe.
proof fn lemma_point_at_scale_bounded(d: V3, t: int)
    requires
        bounded(d, DIR_LIMIT as int),
        -(POINT_AT_LIMIT as int) <= t <= POINT_AT_LIMIT as int,
    ensures
        bounded(scale_s(d, t), GEOM_LIMIT as int),
{
    lemma_scale_comp(d.x, t);
    lemma_scale_comp(d.y, t);
    lemma_scale_comp(d.z, t);
}

proof fn lemma_scale_comp(a: int, t: int)
    requires
        -(DIR_LIMIT as int) <= a <= DIR_LIMIT as int,
        -(POINT_AT_LIMIT as int) <= t <= POINT_AT_LIMIT as int,
    ensures
        -(GEOM_LIMIT as int) <= crate::fixed::fx_mul_s(a, t) <= GEOM_LIMIT as int,
{
    assert(-(0x20_0000_0000_0000) <= a * t <= 0x20_0000_0000_0000)
        by (nonlinear_arith)
        requires
            -0x100_0000 <= a <= 0x100_0000,
            -0x2000_0000 <= t <= 0x2000_0000,
    ;
    crate::fixed::lemma_div_bound(a * t, 65536, 0x20_0000_0000);
}

} // verus!
