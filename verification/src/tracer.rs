//! The recursive tracer: casts a ray into the scene, shades the nearest
//! hit, and follows reflection and transmission rays until the depth
//! budget runs out. Also the final clamped output color mapping.

use vstd::prelude::*;
use crate::vector::{
    Vector3d, V3, v3_zero, v3_add, v3_sub, scale_s, norm_s, reflect_s, len_sqr_s, comp_add_s,
    comp_mul_s, bounded, in_unit_range, lemma_scale_bounded, lemma_dot_bound2,
};
use crate::fixed::{
    FX_ONE, TRACE_BIAS, NORMAL_LIMIT, ORIGIN_LIMIT, DIR_LIMIT,
};
use crate::ray::{Ray, RayV};
use crate::material::{has_brdf_s, has_reflection_s, has_transmission_s, brdf_s};
use crate::scene::{Scene, SceneV, HitRecV, wf_scene, scene_hit_s};
use vstd::arithmetic::div_mod::{lemma_fundamental_div_mod, lemma_fundamental_div_mod_converse_div};

verus! {

/// The direction of the mirror-reflected secondary ray: the incoming
/// direction reflected about the hit normal, normalized and negated so
/// that it points away from the surface.
pub open spec fn reflect_dir_s(r: RayV, h: HitRecV) -> V3 {
    v3_sub(v3_zero(), norm_s(reflect_s(r.direction, h.normal)))
}

/// The mirror-reflected secondary ray, its origin biased off the surface.
pub open spec fn reflected_ray_s(r: RayV, h: HitRecV) -> RayV {
    RayV {
        origin: v3_add(h.point, scale_s(reflect_dir_s(r, h), TRACE_BIAS as int)),
        direction: reflect_dir_s(r, h),
    }
}

/// The transmission secondary ray: from the hit point along the surface
/// normal (a deliberate pass-through simplification, not refraction).
pub open spec fn transmission_ray_s(h: HitRecV) -> RayV {
    RayV { origin: h.point, direction: h.normal }
}

/// The reflection step is degenerate when the reflected vector is too
/// short to normalize or normalizing blows past the direction cap; the
/// tracer then skips the reflection contribution.
pub open spec fn reflect_degenerate_s(r: RayV, h: HitRecV) -> bool {
    ||| len_sqr_s(reflect_s(r.direction, h.normal)) < 1
    ||| !bounded(norm_s(reflect_s(r.direction, h.normal)), NORMAL_LIMIT as int)
}

/// The color returned for a ray with `depth` bounces left: zero when the
/// budget is exhausted or nothing is hit; otherwise the sum of the local
/// shading, the tinted reflection color, and the tinted transmission
/// color, each only when the material calls for it.
pub open spec fn trace_s(sc: SceneV, r: RayV, depth: nat) -> V3
    decreases depth,
{
    if depth == 0 {
        v3_zero()
    } else {
        match scene_hit_s(sc.objects, r, TRACE_BIAS as int, i64::MAX as int) {
            None => v3_zero(),
            Some(h) => {
                let c0 = if has_brdf_s(h.material) {
                    comp_add_s(v3_zero(), brdf_s(h.material, h, sc, r.origin, sc.lights.len() as int))
                } else {
                    v3_zero()
                };
                let c1 = if has_reflection_s(h.material) && !reflect_degenerate_s(r, h) {
                    comp_add_s(
                        c0,
                        comp_mul_s(
                            h.material.reflection,
                            trace_s(sc, reflected_ray_s(r, h), (depth - 1) as nat),
                        ),
                    )
                } else {
                    c0
                };
                if has_transmission_s(h.material) {
                    comp_add_s(
                        c1,
                        comp_mul_s(
                            h.material.transmission,
                            trace_s(sc, transmission_ray_s(h), (depth - 1) as nat),
                        ),
                    )
                } else {
                    c1
                }
            },
        }
    }
}

/// Cast `ray` into the scene with `depth` bounces left and return the
/// composed color.
pub fn trace(ray: Ray, depth: u32, scene: &Scene) -> (r: Vector3d)
    requires
        wf_scene(scene@),
        bounded(ray@.origin, ORIGIN_LIMIT as int),
        bounded(ray@.direction, DIR_LIMIT as int),
    ensures
        r@ == trace_s(scene@, ray@, depth as nat),
        depth == 0 ==> r@ == v3_zero(),
    decreases depth,
{
    if depth == 0 {
        return Vector3d::zero();
    }
    let hit = scene.hit(&ray, TRACE_BIAS, i64::MAX);
    match hit {
        None => Vector3d::zero(),
        Some(hit_record) => {
            let mut color = Vector3d::zero();
            if hit_record.material.has_brdf() {
                let local = hit_record.material.calc_brdf(&hit_record, scene, ray.get_origin());
                color = color.comp_add(local);
            }
            if hit_record.material.has_reflection() {
                let rv = ray.get_direction().reflect(hit_record.normal);
                proof {
                    lemma_reflect_dir_bounded(ray@.direction, hit_record@.normal);
                }
                if rv.len_sqr() >= 1 {
                    let nd = rv.normalized();
                    if in_unit_range(&nd) {
                        let reflection = Vector3d::zero().sub(nd);
                        proof {
                            lemma_scale_bounded(
                                reflection@,
                                TRACE_BIAS as int,
                                NORMAL_LIMIT as int,
                                TRACE_BIAS as int,
                                NORMAL_LIMIT as int,
                            );
                        }
                        let reflected_ray = Ray::new(
                            hit_record.point.add(reflection.scale(TRACE_BIAS)),
                            reflection,
                        );
                        let reflected_color = trace(reflected_ray, depth - 1, scene);
                        color = color.comp_add(
                            hit_record.material.reflection_color.comp_mul(reflected_color),
                        );
                    }
                }
            }
            if hit_record.material.has_transmission() {
                let transmission_ray = Ray::new(hit_record.point, hit_record.normal);
                let transmission_color = trace(transmission_ray, depth - 1, scene);
                color = color.comp_add(
                    hit_record.material.transmission_color.comp_mul(transmission_color),
                );
            }
            color
        },
    }
}

/// Numerator factor of the output mapping (255.99 in fixed hundredths).
pub const COLOR_NUM: i64 = 25599;

/// Denominator of the output mapping: `100 * FX_ONE`.
pub const COLOR_DEN: i64 = 6553600;

/// The clamped linear output mapping of one color channel: everything at
/// or above 1.0 is full intensity, everything at or below 0.0 is black,
/// and the range between is scaled by 255.99 and truncated.
pub open spec fn to_color_s(input: int) -> int {
    if input >= FX_ONE as int {
        255
    } else if input <= 0 {
        0
    } else {
        (input * COLOR_NUM as int) / (COLOR_DEN as int)
    }
}

/// Map a fixed-point channel value to an 8-bit output intensity.
pub fn to_color(input: i64) -> (r: u8)
    ensures
        r as int == to_color_s(input as int),
{
    if input >= FX_ONE {
        255
    } else if input <= 0 {
        0
    } else {
        let n: u64 = (input as u64) * 25599;
        let q: u64 = n / 6553600;
        proof {
            assert(n as int == (input as int) * 25599);
            lemma_fundamental_div_mod(n as int, 6553600);
            assert(q < 256) by (nonlinear_arith)
                requires
                    6553600 * (q as int) <= n as int,
                    (n as int) < 256 * 6553600,
            ;
        }
        q as u8
    }
}

/// With the depth budget exhausted the tracer returns zero color, no
/// matter what the ray would hit.
pub proof fn lemma_trace_depth_zero(sc: SceneV, r: RayV)
    ensures
        trace_s(sc, r, 0) == v3_zero(),
{
}

/// A ray that hits nothing within the tracing interval yields zero color.
pub proof fn lemma_trace_miss(sc: SceneV, r: RayV, depth: nat)
    requires
        scene_hit_s(sc.objects, r, TRACE_BIAS as int, i64::MAX as int) is None,
    ensures
        trace_s(sc, r, depth) == v3_zero(),
{
}

/// A purely mirror-reflective surface (no local shading, no
/// transmission) returns exactly the tint of the color traced along the
/// mirror-reflected ray: black stays black, and any environment color
/// comes back tinted by the reflection color.
pub proof fn lemma_trace_mirror(sc: SceneV, r: RayV, h: HitRecV, depth: nat)
    requires
        depth > 0,
        scene_hit_s(sc.objects, r, TRACE_BIAS as int, i64::MAX as int) == Some(h),
        !has_brdf_s(h.material),
        has_reflection_s(h.material),
        !has_transmission_s(h.material),
        !reflect_degenerate_s(r, h),
    ensures
        trace_s(sc, r, depth) == comp_add_s(
            v3_zero(),
            comp_mul_s(h.material.reflection, trace_s(sc, reflected_ray_s(r, h), (depth - 1) as nat)),
        ),
{
}

/// Tinting black gives exactly black, so a reflection chain that ends in
/// a miss or an exhausted depth budget composes to zero color.
pub proof fn lemma_tint_of_black(t: V3)
    ensures
        comp_mul_s(t, v3_zero()) == v3_zero(),
{
    crate::fixed::lemma_div_exact(0, FX_ONE as int, 0);
    assert(t.x * 0 == 0) by (nonlinear_arith);
    assert(t.y * 0 == 0) by (nonlinear_arith);
    assert(t.z * 0 == 0) by (nonlinear_arith);
}

/// The anchor points of the output mapping: 1.5 saturates to the maximum
/// channel value, -0.2 clamps to the minimum, and 0.5 lands on the exact
/// midpoint of the linear formula.
pub proof fn lemma_to_color_anchors()
    ensures
        to_color_s(3 * (FX_ONE as int) / 2) == 255,
        to_color_s(-(FX_ONE as int) / 5) == 0,
        to_color_s((FX_ONE as int) / 2) == 127,
{
    assert(3 * (FX_ONE as int) / 2 == 98304);
    assert(-(FX_ONE as int) / 5 == -13108);
    assert((FX_ONE as int) / 2 == 32768);
    lemma_fundamental_div_mod_converse_div(32768int * 25599, 6553600, 127, 6520832);
}

/// Reflecting a tracer-range direction about a hit normal stays within
/// the exact-arithmetic range.
proof fn lemma_reflect_dir_bounded(v: V3, n: V3)
    requires
        bounded(v, DIR_LIMIT as int),
        bounded(n, NORMAL_LIMIT as int),
    ensures
        bounded(reflect_s(v, n), 0x1_0000_0000),
{
    lemma_dot_bound2(v, n, DIR_LIMIT as int, NORMAL_LIMIT as int, 0x1000_0000);
    lemma_scale_bounded(
        n,
        2 * crate::vector::dot_s(v, n),
        NORMAL_LIMIT as int,
        0x2000_0000,
        0x8000_0000,
    );
}

} // verus!
