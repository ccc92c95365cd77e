//! The scene: spheres, lights, camera parameters, and the nearest-hit
//! query that sweeps all primitives with a tightening interval.

use vstd::prelude::*;
use crate::vector::{Vector3d, V3, v3_zero, bounded};
use crate::fixed::{MAX_COORD, POINT_LIMIT, NORMAL_LIMIT, HIT_LIMIT};
use crate::ray::{Ray, RayV};
use crate::material::{Material, MatV, mat_empty_s};
use crate::sphere::{Sphere, SphereV, wf_sphere, sph_hit_s, sph_cand};

verus! {

/// Mathematical view of a hit record.
pub ghost struct HitRecV {
    pub t: int,
    pub point: V3,
    pub normal: V3,
    pub material: MatV,
}

/// The result of a successful ray-primitive intersection: parametric
/// distance, world-space point, outward unit normal, and a copy of the
/// surface's material.
#[derive(Clone, Copy, Debug)]
pub struct HitRecord {
    pub t: i64,
    pub point: Vector3d,
    pub normal: Vector3d,
    pub material: Material,
}

impl View for HitRecord {
    type V = HitRecV;

    open spec fn view(&self) -> HitRecV {
        HitRecV {
            t: self.t as int,
            point: self.point@,
            normal: self.normal@,
            material: self.material@,
        }
    }
}

/// The "no hit yet" sentinel record.
pub open spec fn hit_record_default_s() -> HitRecV {
    HitRecV { t: 0, point: v3_zero(), normal: v3_zero(), material: mat_empty_s() }
}

impl HitRecord {
    pub fn default() -> (r: HitRecord)
        ensures
            r@ == hit_record_default_s(),
    {
        HitRecord {
            t: 0,
            point: Vector3d::zero(),
            normal: Vector3d::zero(),
            material: Material::empty(),
        }
    }
}

/// Mathematical view of a point light.
pub ghost struct LightV {
    pub position: V3,
    pub ambient: V3,
    pub diffuse: V3,
    pub specular: V3,
}

/// A point light: a position and three independent color contributions.
#[derive(Clone, Copy, PartialEq, Eq, Structural, Debug)]
pub struct Light {
    pub position: Vector3d,
    pub ambient_color: Vector3d,
    pub diffuse_color: Vector3d,
    pub specular_color: Vector3d,
}

impl View for Light {
    type V = LightV;

    open spec fn view(&self) -> LightV {
        LightV {
            position: self.position@,
            ambient: self.ambient_color@,
            diffuse: self.diffuse_color@,
            specular: self.specular_color@,
        }
    }
}

pub open spec fn wf_light(l: LightV) -> bool {
    bounded(l.position, MAX_COORD as int)
}

/// Mathematical view of a scene.
pub ghost struct SceneV {
    pub objects: Seq<SphereV>,
    pub lights: Seq<LightV>,
    pub width: int,
    pub height: int,
    pub depth: nat,
    pub fov: int,
    pub look_from: V3,
    pub look_at: V3,
    pub up: V3,
}

/// A scene: spheres, lights, image dimensions, recursion depth budget,
/// field of view, and camera placement. Read-only during rendering.
pub struct Scene {
    pub objects: Vec<Sphere>,
    pub lights: Vec<Light>,

    pub width: u32,
    pub height: u32,
    pub depth: u32,
    pub fov: u8,

    pub look_from: Vector3d,
    pub look_at: Vector3d,
    pub up: Vector3d,
}

impl View for Scene {
    type V = SceneV;

    open spec fn view(&self) -> SceneV {
        SceneV {
            objects: self.objects@.map_values(|s: Sphere| s@),
            lights: self.lights@.map_values(|l: Light| l@),
            width: self.width as int,
            height: self.height as int,
            depth: self.depth as nat,
            fov: self.fov as int,
            look_from: self.look_from@,
            look_at: self.look_at@,
            up: self.up@,
        }
    }
}

/// Every sphere and light of the scene is within the modeled ranges.
pub open spec fn wf_scene(sc: SceneV) -> bool {
    &&& forall|i: int| 0 <= i < sc.objects.len() ==> wf_sphere(#[trigger] sc.objects[i])
    &&& forall|i: int| 0 <= i < sc.lights.len() ==> wf_light(#[trigger] sc.lights[i])
}

/// The view of an optional hit record.
pub open spec fn view_opt(o: Option<HitRecord>) -> Option<HitRecV> {
    match o {
        Some(h) => Some(h@),
        None => None,
    }
}

/// The nearest hit among the first `n` spheres: each sphere is probed
/// against the interval shrunk to the closest hit found so far.
pub open spec fn scene_hit_prefix(
    objs: Seq<SphereV>,
    r: RayV,
    t_min: int,
    t_max: int,
    n: int,
) -> Option<HitRecV>
    decreases n,
{
    if n <= 0 {
        None
    } else {
        let prev = scene_hit_prefix(objs, r, t_min, t_max, n - 1);
        let cur_max = match prev {
            Some(h) => h.t,
            None => t_max,
        };
        match sph_hit_s(objs[n - 1], r, t_min, cur_max) {
            Some(h2) => Some(h2),
            None => prev,
        }
    }
}

/// The nearest hit among all spheres of the list.
pub open spec fn scene_hit_s(objs: Seq<SphereV>, r: RayV, t_min: int, t_max: int) -> Option<
    HitRecV,
> {
    scene_hit_prefix(objs, r, t_min, t_max, objs.len() as int)
}

/// Whether sphere `j` of the list offers a candidate hit past `t_min`.
pub open spec fn cand_some(objs: Seq<SphereV>, r: RayV, t_min: int, j: int) -> bool {
    sph_cand(objs[j], r, t_min) is Some
}

/// The parametric distance of sphere `j`'s candidate hit.
pub open spec fn cand_t(objs: Seq<SphereV>, r: RayV, t_min: int, j: int) -> int {
    match sph_cand(objs[j], r, t_min) {
        Some(h) => h.t,
        None => 0,
    }
}

/// The nearest-hit sweep returns exactly the minimal candidate: a hit is
/// some sphere's candidate within the interval, no candidate is closer,
/// and a miss means every candidate lies at or past `t_max`.
pub proof fn lemma_scene_hit_characterization(
    objs: Seq<SphereV>,
    r: RayV,
    t_min: int,
    t_max: int,
    n: int,
)
    requires
        0 <= n <= objs.len(),
    ensures
        match scene_hit_prefix(objs, r, t_min, t_max, n) {
            Some(h) => {
                &&& h.t < t_max
                &&& exists|i: int|
                    0 <= i < n && #[trigger] cand_some(objs, r, t_min, i) && sph_cand(
                        objs[i],
                        r,
                        t_min,
                    ) == Some(h)
                &&& forall|j: int|
                    0 <= j < n && #[trigger] cand_some(objs, r, t_min, j) ==> h.t <= cand_t(
                        objs,
                        r,
                        t_min,
                        j,
                    )
            },
            None => forall|j: int|
                0 <= j < n && #[trigger] cand_some(objs, r, t_min, j) ==> cand_t(
                    objs,
                    r,
                    t_min,
                    j,
                ) >= t_max,
        },
    decreases n,
{
    if n > 0 {
        lemma_scene_hit_characterization(objs, r, t_min, t_max, n - 1);
        let prev = scene_hit_prefix(objs, r, t_min, t_max, n - 1);
        let cur_max = match prev {
            Some(h) => h.t,
            None => t_max,
        };
        match sph_hit_s(objs[n - 1], r, t_min, cur_max) {
            Some(h2) => {
                assert(cand_some(objs, r, t_min, n - 1));
                assert(sph_cand(objs[n - 1], r, t_min) == Some(h2));
            },
            None => {},
        }
    }
}

/// The nearest hit does not depend on the order of the sphere list: two
/// lists with the same spheres, where candidates at equal distance carry
/// equal records, produce the same result.
pub proof fn lemma_scene_hit_order_independent(
    objs1: Seq<SphereV>,
    objs2: Seq<SphereV>,
    r: RayV,
    t_min: int,
    t_max: int,
)
    requires
        forall|i: int| 0 <= i < objs1.len() ==> objs2.contains(#[trigger] objs1[i]),
        forall|i: int| 0 <= i < objs2.len() ==> objs1.contains(#[trigger] objs2[i]),
        forall|i: int, j: int|
            0 <= i < objs1.len() && 0 <= j < objs1.len() && #[trigger] cand_some(
                objs1,
                r,
                t_min,
                i,
            ) && #[trigger] cand_some(objs1, r, t_min, j) && cand_t(objs1, r, t_min, i) == cand_t(
                objs1,
                r,
                t_min,
                j,
            ) ==> sph_cand(objs1[i], r, t_min) == sph_cand(objs1[j], r, t_min),
    ensures
        scene_hit_s(objs1, r, t_min, t_max) == scene_hit_s(objs2, r, t_min, t_max),
{
    lemma_scene_hit_characterization(objs1, r, t_min, t_max, objs1.len() as int);
    lemma_scene_hit_characterization(objs2, r, t_min, t_max, objs2.len() as int);
    let h1o = scene_hit_s(objs1, r, t_min, t_max);
    let h2o = scene_hit_s(objs2, r, t_min, t_max);
    match h1o {
        Some(h1) => {
            let i1 = choose|i: int|
                0 <= i < objs1.len() && #[trigger] cand_some(objs1, r, t_min, i) && sph_cand(
                    objs1[i],
                    r,
                    t_min,
                ) == Some(h1);
            match h2o {
                Some(h2) => {
                    let i2 = choose|i: int|
                        0 <= i < objs2.len() && #[trigger] cand_some(objs2, r, t_min, i)
                            && sph_cand(objs2[i], r, t_min) == Some(h2);
                    // each result is a candidate of the other list too
                    assert(objs1.contains(objs2[i2]));
                    let k2 = choose|k: int| 0 <= k < objs1.len() && objs1[k] == objs2[i2];
                    assert(cand_some(objs1, r, t_min, k2));
                    assert(h1.t <= cand_t(objs1, r, t_min, k2));
                    assert(h1.t <= h2.t);
                    assert(objs2.contains(objs1[i1]));
                    let k1 = choose|k: int| 0 <= k < objs2.len() && objs2[k] == objs1[i1];
                    assert(cand_some(objs2, r, t_min, k1));
                    assert(h2.t <= cand_t(objs2, r, t_min, k1));
                    assert(h2.t <= h1.t);
                    // equal distance, so equal records by the tie condition
                    assert(cand_t(objs1, r, t_min, i1) == cand_t(objs1, r, t_min, k2));
                    assert(sph_cand(objs1[i1], r, t_min) == sph_cand(objs1[k2], r, t_min));
                    assert(Some(h1) == Some(h2));
                },
                None => {
                    // objs2 reports every candidate at or past t_max, but
                    // objs1's result is one of objs2's candidates below it
                    assert(objs2.contains(objs1[i1]));
                    let k1 = choose|k: int| 0 <= k < objs2.len() && objs2[k] == objs1[i1];
                    assert(cand_some(objs2, r, t_min, k1));
                    assert(cand_t(objs2, r, t_min, k1) >= t_max);
                    assert(false);
                },
            }
        },
        None => {
            match h2o {
                Some(h2) => {
                    let i2 = choose|i: int|
                        0 <= i < objs2.len() && #[trigger] cand_some(objs2, r, t_min, i)
                            && sph_cand(objs2[i], r, t_min) == Some(h2);
                    assert(objs1.contains(objs2[i2]));
                    let k2 = choose|k: int| 0 <= k < objs1.len() && objs1[k] == objs2[i2];
                    assert(cand_some(objs1, r, t_min, k2));
                    assert(cand_t(objs1, r, t_min, k2) >= t_max);
                    assert(false);
                },
                None => {},
            }
        },
    }
}

impl Scene {
    /// The globally nearest intersection of `ray` with any sphere inside
    /// `(t_min, t_max)`, or `None` when nothing is hit in range.
    pub fn hit(&self, ray: &Ray, t_min: i64, t_max: i64) -> (result: Option<HitRecord>)
        requires
            wf_scene(self@),
            bounded(ray@.origin, HIT_LIMIT as int),
            bounded(ray@.direction, HIT_LIMIT as int),
        ensures
            view_opt(result) == scene_hit_s(self@.objects, ray@, t_min as int, t_max as int),
            result matches Some(rec) ==> bounded(rec@.point, POINT_LIMIT as int)
                && bounded(rec@.normal, NORMAL_LIMIT as int) && t_min < rec.t < t_max,
            // the returned hit is some sphere's candidate, and no sphere
            // offers a closer one
            result matches Some(rec) ==> (exists|i: int|
                0 <= i < self@.objects.len() && #[trigger] cand_some(
                    self@.objects,
                    ray@,
                    t_min as int,
                    i,
                ) && sph_cand(self@.objects[i], ray@, t_min as int) == Some(rec@)) && (forall|
                j: int,
            |
                0 <= j < self@.objects.len() && #[trigger] cand_some(
                    self@.objects,
                    ray@,
                    t_min as int,
                    j,
                ) ==> rec@.t <= cand_t(self@.objects, ray@, t_min as int, j)),
            result is None ==> forall|j: int|
                0 <= j < self@.objects.len() && #[trigger] cand_some(
                    self@.objects,
                    ray@,
                    t_min as int,
                    j,
                ) ==> cand_t(self@.objects, ray@, t_min as int, j) >= t_max,
    {
        proof {
            lemma_scene_hit_characterization(
                self@.objects,
                ray@,
                t_min as int,
                t_max as int,
                self@.objects.len() as int,
            );
        }
        let mut best: Option<HitRecord> = None;
        let mut i: usize = 0;
        let n = self.objects.len();
        while i < n
            invariant
                n == self@.objects.len(),
                0 <= i <= n,
                wf_scene(self@),
                bounded(ray@.origin, HIT_LIMIT as int),
                bounded(ray@.direction, HIT_LIMIT as int),
                view_opt(best) == scene_hit_prefix(
                    self@.objects,
                    ray@,
                    t_min as int,
                    t_max as int,
                    i as int,
                ),
                best matches Some(rec) ==> bounded(rec@.point, POINT_LIMIT as int)
                    && bounded(rec@.normal, NORMAL_LIMIT as int) && t_min < rec.t < t_max,
            decreases n - i,
        {
            let cur_max = match &best {
                Some(rec) => rec.t,
                None => t_max,
            };
            let obj = &self.objects[i];
            proof {
                assert(obj@ == self@.objects[i as int]);
                assert(wf_sphere(self@.objects[i as int]));
            }
            let probe = obj.hit(ray, t_min, cur_max);
            match probe {
                Some(h) => {
                    best = Some(h);
                },
                None => {},
            }
            i = i + 1;
        }
        best
    }
}

} // verus!
