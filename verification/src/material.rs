//! Surface materials: Phong coefficients plus reflection and transmission
//! tints, and the local-illumination (shading) evaluation.

use vstd::prelude::*;
use crate::vector::{
    Vector3d, V3, v3_zero, v3_add, v3_sub, is_zero_s, comp_add_s, comp_mul_s, scale_s,
    len_sqr_s, norm_s, reflect_s, dot_s, bounded, in_unit_range,
};
use crate::fixed::{
    POINT_LIMIT, NORMAL_LIMIT, ORIGIN_LIMIT, TRACE_BIAS, SHADOW_BIAS,
    sat_mul_s, sat_pow_s, sat_mul, sat_pow,
};
use crate::ray::{Ray, RayV};
use crate::scene::{Scene, HitRecord, HitRecV, LightV, wf_scene, wf_light, scene_hit_s};

verus! {

/// Mathematical view of a material.
pub ghost struct MatV {
    pub ambient: V3,
    pub diffuse: V3,
    pub specular: V3,
    pub shininess: nat,
    pub reflection: V3,
    pub transmission: V3,
}

/// The material of the "no hit yet" sentinel record: everything zero.
pub open spec fn mat_empty_s() -> MatV {
    MatV {
        ambient: v3_zero(),
        diffuse: v3_zero(),
        specular: v3_zero(),
        shininess: 0,
        reflection: v3_zero(),
        transmission: v3_zero(),
    }
}

/// The material contributes local shading: some Phong coefficient is
/// non-zero (up to the zero tolerance).
pub open spec fn has_brdf_s(m: MatV) -> bool {
    !(is_zero_s(m.ambient) && is_zero_s(m.diffuse) && is_zero_s(m.specular))
}

pub open spec fn has_reflection_s(m: MatV) -> bool {
    !is_zero_s(m.reflection)
}

pub open spec fn has_transmission_s(m: MatV) -> bool {
    !is_zero_s(m.transmission)
}

/// A color scaled by a fixed-point factor and tinted by a light color:
/// `k * a * b`, component-wise and saturating.
pub open spec fn color_term_s(k: int, a: V3, b: V3) -> V3 {
    V3 {
        x: sat_mul_s(sat_mul_s(k, a.x), b.x),
        y: sat_mul_s(sat_mul_s(k, a.y), b.y),
        z: sat_mul_s(sat_mul_s(k, a.z), b.z),
    }
}

/// Whether the path from the hit point toward the light is blocked: the
/// shadow ray hits something no farther away than the light itself.
pub open spec fn occluded_s(sc: crate::scene::SceneV, rec: HitRecV, l: LightV, light_dir: V3) -> bool {
    let sray = RayV {
        origin: v3_add(rec.point, scale_s(light_dir, SHADOW_BIAS as int)),
        direction: light_dir,
    };
    match scene_hit_s(sc.objects, sray, TRACE_BIAS as int, i64::MAX as int) {
        Some(v) => len_sqr_s(v3_sub(l.position, rec.point))
            >= len_sqr_s(v3_sub(v.point, rec.point)),
        None => false,
    }
}

/// The contribution of one light to the shading of a hit point.
///
/// The ambient term is always contributed. Diffuse and specular terms are
/// added only when the light is not occluded and none of the involved
/// directions is degenerate at the fixed-point resolution (too short to
/// normalize, or normalizing blows past `NORMAL_LIMIT`).
pub open spec fn light_term_s(m: MatV, rec: HitRecV, sc: crate::scene::SceneV, origin: V3, l: LightV) -> V3 {
    let amb = comp_mul_s(m.ambient, l.ambient);
    let to_light = v3_sub(l.position, rec.point);
    let to_eye = v3_sub(origin, rec.point);
    if len_sqr_s(to_light) < 1 || len_sqr_s(rec.normal) < 1 || len_sqr_s(to_eye) < 1 {
        amb
    } else {
        let light_dir = norm_s(to_light);
        let normal = norm_s(rec.normal);
        let view_dir = norm_s(to_eye);
        if !bounded(light_dir, NORMAL_LIMIT as int) || !bounded(normal, NORMAL_LIMIT as int)
            || !bounded(view_dir, NORMAL_LIMIT as int) {
            amb
        } else if occluded_s(sc, rec, l, light_dir) {
            amb
        } else {
            let reflection = reflect_s(light_dir, normal);
            let d = if dot_s(normal, light_dir) > 0 { dot_s(normal, light_dir) } else { 0 };
            let sd = if dot_s(reflection, view_dir) > 0 { dot_s(reflection, view_dir) } else { 0 };
            let diff = color_term_s(d, m.diffuse, l.diffuse);
            let spec = color_term_s(sat_pow_s(sd, m.shininess), m.specular, l.specular);
            comp_add_s(comp_add_s(amb, diff), spec)
        }
    }
}

/// The summed contribution of the first `n` lights of the scene.
pub open spec fn brdf_s(m: MatV, rec: HitRecV, sc: crate::scene::SceneV, origin: V3, n: int) -> V3
    decreases n,
{
    if n <= 0 {
        v3_zero()
    } else {
        comp_add_s(
            brdf_s(m, rec, sc, origin, n - 1),
            light_term_s(m, rec, sc, origin, sc.lights[n - 1]),
        )
    }
}

/// A surface material: Phong coefficients, a reflection tint and a
/// transmission tint. Zero tints switch the respective path off.
#[derive(Clone, Copy, PartialEq, Eq, Structural, Debug)]
pub struct Material {
    pub ambient_color: Vector3d,
    pub diffuse_color: Vector3d,
    pub specular_color: Vector3d,
    pub shininess: u32,

    pub reflection_color: Vector3d,
    pub transmission_color: Vector3d,
}

impl View for Material {
    type V = MatV;

    open spec fn view(&self) -> MatV {
        MatV {
            ambient: self.ambient_color@,
            diffuse: self.diffuse_color@,
            specular: self.specular_color@,
            shininess: self.shininess as nat,
            reflection: self.reflection_color@,
            transmission: self.transmission_color@,
        }
    }
}

impl Material {
    pub fn new(
        ambient_color: Vector3d,
        diffuse_color: Vector3d,
        specular_color: Vector3d,
        shininess: u32,
        reflection_color: Vector3d,
        transmission_color: Vector3d,
    ) -> (r: Material)
        ensures
            r@ == (MatV {
                ambient: ambient_color@,
                diffuse: diffuse_color@,
                specular: specular_color@,
                shininess: shininess as nat,
                reflection: reflection_color@,
                transmission: transmission_color@,
            }),
    {
        Material {
            ambient_color,
            diffuse_color,
            specular_color,
            shininess,
            reflection_color,
            transmission_color,
        }
    }

    /// A material that shades locally but neither reflects nor transmits.
    pub fn new_specular(
        ambient_color: Vector3d,
        diffuse_color: Vector3d,
        specular_color: Vector3d,
        shininess: u32,
    ) -> (r: Material)
        ensures
            r@ == (MatV {
                ambient: ambient_color@,
                diffuse: diffuse_color@,
                specular: specular_color@,
                shininess: shininess as nat,
                reflection: v3_zero(),
                transmission: v3_zero(),
            }),
    {
        Material {
            ambient_color,
            diffuse_color,
            specular_color,
            shininess,
            reflection_color: Vector3d::zero(),
            transmission_color: Vector3d::zero(),
        }
    }

    pub fn empty() -> (r: Material)
        ensures
            r@ == mat_empty_s(),
    {
        Material {
            ambient_color: Vector3d::zero(),
            diffuse_color: Vector3d::zero(),
            specular_color: Vector3d::zero(),
            shininess: 0,
            reflection_color: Vector3d::zero(),
            transmission_color: Vector3d::zero(),
        }
    }

    pub fn has_brdf(&self) -> (r: bool)
        ensures
            r == has_brdf_s(self@),
    {
        !(self.ambient_color.is_zero() && self.diffuse_color.is_zero()
            && self.specular_color.is_zero())
    }

    pub fn has_reflection(&self) -> (r: bool)
        ensures
            r == has_reflection_s(self@),
    {
        !self.reflection_color.is_zero()
    }

    pub fn has_transmission(&self) -> (r: bool)
        ensures
            r == has_transmission_s(self@),
    {
        !self.transmission_color.is_zero()
    }

    /// Local Phong illumination of a hit point, summed over all lights,
    /// with hard shadowing; `origin` is the eye the viewing direction
    /// points back to.
    pub fn calc_brdf(&self, record: &HitRecord, scene: &Scene, origin: Vector3d) -> (r: Vector3d)
        requires
            wf_scene(scene@),
            bounded(record@.point, POINT_LIMIT as int),
            bounded(record@.normal, NORMAL_LIMIT as int),
            bounded(origin@, ORIGIN_LIMIT as int),
        ensures
            r@ == brdf_s(self@, record@, scene@, origin@, scene@.lights.len() as int),
    {
        let mut color = Vector3d::zero();
        let mut i: usize = 0;
        let n = scene.lights.len();
        while i < n
            invariant
                n == scene@.lights.len(),
                0 <= i <= n,
                wf_scene(scene@),
                bounded(record@.point, POINT_LIMIT as int),
                bounded(record@.normal, NORMAL_LIMIT as int),
                bounded(origin@, ORIGIN_LIMIT as int),
                color@ == brdf_s(self@, record@, scene@, origin@, i as int),
            decreases n - i,
        {
            let term = self.light_term(record, scene, origin, i);
            color = color.comp_add(term);
            i = i + 1;
        }
        color
    }

    /// The contribution of the light at index `li` (ambient term plus,
    /// when visible and non-degenerate, diffuse and specular terms).
    fn light_term(&self, record: &HitRecord, scene: &Scene, origin: Vector3d, li: usize) -> (r: Vector3d)
        requires
            wf_scene(scene@),
            li < scene@.lights.len(),
            bounded(record@.point, POINT_LIMIT as int),
            bounded(record@.normal, NORMAL_LIMIT as int),
            bounded(origin@, ORIGIN_LIMIT as int),
        ensures
            r@ == light_term_s(self@, record@, scene@, origin@, scene@.lights[li as int]),
    {
        let light = &scene.lights[li];
        proof {
            assert(light@ == scene@.lights[li as int]);
            assert(wf_light(scene@.lights[li as int]));
        }
        let amb = self.ambient_color.comp_mul(light.ambient_color);
        let to_light = light.position.sub(record.point);
        let to_eye = origin.sub(record.point);
        if to_light.len_sqr() < 1 || record.normal.len_sqr() < 1 || to_eye.len_sqr() < 1 {
            return amb;
        }
        let light_dir = to_light.normalized();
        let normal = record.normal.normalized();
        let view_dir = to_eye.normalized();
        if !in_unit_range(&light_dir) || !in_unit_range(&normal) || !in_unit_range(&view_dir) {
            return amb;
        }
        let visible_ray = Ray::new(record.point.add(light_dir.scale(SHADOW_BIAS)), light_dir);
        let shadow_hit = scene.hit(&visible_ray, TRACE_BIAS, i64::MAX);
        match shadow_hit {
            Some(visible_record) => {
                let light_d2 = light.position.sub(record.point).len_sqr();
                let block_d2 = visible_record.point.sub(record.point).len_sqr();
                if light_d2 >= block_d2 {
                    return amb;
                }
            },
            None => {},
        }
        let reflection = light_dir.reflect(normal);
        proof {
            crate::vector::lemma_reflect_bounded(light_dir@, normal@);
        }
        let d0 = Vector3d::dot(normal, light_dir);
        let d = if d0 > 0 { d0 } else { 0 };
        let sd0 = Vector3d::dot(reflection, view_dir);
        let sd = if sd0 > 0 { sd0 } else { 0 };
        let diff = color_term(d, self.diffuse_color, light.diffuse_color);
        let spec = color_term(
            sat_pow(sd, self.shininess),
            self.specular_color,
            light.specular_color,
        );
        amb.comp_add(diff).comp_add(spec)
    }
}

/// A light whose path to the hit point is blocked by some primitive
/// contributes only its ambient term to the shading.
pub proof fn lemma_occluded_light_ambient_only(
    m: MatV,
    rec: HitRecV,
    sc: crate::scene::SceneV,
    origin: V3,
    l: LightV,
)
    requires
        len_sqr_s(v3_sub(l.position, rec.point)) >= 1,
        len_sqr_s(rec.normal) >= 1,
        len_sqr_s(v3_sub(origin, rec.point)) >= 1,
        bounded(norm_s(v3_sub(l.position, rec.point)), NORMAL_LIMIT as int),
        bounded(norm_s(rec.normal), NORMAL_LIMIT as int),
        bounded(norm_s(v3_sub(origin, rec.point)), NORMAL_LIMIT as int),
        occluded_s(sc, rec, l, norm_s(v3_sub(l.position, rec.point))),
    ensures
        light_term_s(m, rec, sc, origin, l) == comp_mul_s(m.ambient, l.ambient),
{
}

/// An unoccluded light contributes its full ambient plus diffuse plus
/// specular terms.
pub proof fn lemma_visible_light_full(
    m: MatV,
    rec: HitRecV,
    sc: crate::scene::SceneV,
    origin: V3,
    l: LightV,
)
    requires
        len_sqr_s(v3_sub(l.position, rec.point)) >= 1,
        len_sqr_s(rec.normal) >= 1,
        len_sqr_s(v3_sub(origin, rec.point)) >= 1,
        bounded(norm_s(v3_sub(l.position, rec.point)), NORMAL_LIMIT as int),
        bounded(norm_s(rec.normal), NORMAL_LIMIT as int),
        bounded(norm_s(v3_sub(origin, rec.point)), NORMAL_LIMIT as int),
        !occluded_s(sc, rec, l, norm_s(v3_sub(l.position, rec.point))),
    ensures
        light_term_s(m, rec, sc, origin, l) == ({
            let light_dir = norm_s(v3_sub(l.position, rec.point));
            let normal = norm_s(rec.normal);
            let view_dir = norm_s(v3_sub(origin, rec.point));
            let reflection = reflect_s(light_dir, normal);
            let d = if dot_s(normal, light_dir) > 0 { dot_s(normal, light_dir) } else { 0 };
            let sd = if dot_s(reflection, view_dir) > 0 { dot_s(reflection, view_dir) } else { 0 };
            comp_add_s(
                comp_add_s(comp_mul_s(m.ambient, l.ambient), color_term_s(d, m.diffuse, l.diffuse)),
                color_term_s(sat_pow_s(sd, m.shininess), m.specular, l.specular),
            )
        }),
{
}

/// One shading term: factor `k` times material color times light color.
fn color_term(k: i64, a: Vector3d, b: Vector3d) -> (r: Vector3d)
    ensures
        r@ == color_term_s(k as int, a@, b@),
{
    Vector3d {
        x: sat_mul(sat_mul(k, a.x), b.x),
        y: sat_mul(sat_mul(k, a.y), b.y),
        z: sat_mul(sat_mul(k, a.z), b.z),
    }
}

} // verus!
