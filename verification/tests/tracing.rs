use raytracer::fixed::{FX_ONE, TRACE_BIAS};
use raytracer::material::Material;
use raytracer::ray::Ray;
use raytracer::scene::{HitRecord, Light, Scene};
use raytracer::sphere::Sphere;
use raytracer::tracer::{to_color, trace};
use raytracer::vector::Vector3d;

fn v(x: i64, y: i64, z: i64) -> Vector3d {
    Vector3d::new(x, y, z)
}

fn empty_scene() -> Scene {
    Scene {
        objects: vec![],
        lights: vec![],
        width: 1,
        height: 1,
        depth: 1,
        fov: 60,
        look_from: Vector3d::zero(),
        look_at: Vector3d::zero(),
        up: v(0, FX_ONE, 0),
    }
}

#[test]
fn head_on_hit_distance_and_normal() {
    // Sphere of radius 2 at the origin, unit ray from (0, 0, -5) toward
    // the center: the hit is at t = 3, the point at (0, 0, -2), and the
    // normal is the exact unit vector (0, 0, -1).
    let sphere = Sphere::new(
        Vector3d::zero(),
        2 * FX_ONE,
        Material::new_specular(Vector3d::one(), Vector3d::one(), Vector3d::one(), 10),
    );
    let ray = Ray::new(v(0, 0, -5 * FX_ONE), v(0, 0, FX_ONE));
    let rec = sphere.hit(&ray, TRACE_BIAS, i64::MAX).expect("must hit");
    assert_eq!(rec.t, 3 * FX_ONE);
    assert_eq!(rec.point, v(0, 0, -2 * FX_ONE));
    assert_eq!(rec.normal, v(0, 0, -FX_ONE));
    assert_eq!(rec.normal.len(), FX_ONE);
    assert_eq!(rec.point.sub(Vector3d::zero()).scale(FX_ONE / 2).normalized(), rec.normal);
}

#[test]
fn tangent_ray_misses() {
    // A ray grazing the unit sphere exactly at distance 1: discriminant
    // zero, reported as a miss by the strict inequality.
    let sphere = Sphere::new(
        Vector3d::zero(),
        FX_ONE,
        Material::new_specular(Vector3d::one(), Vector3d::one(), Vector3d::one(), 10),
    );
    let ray = Ray::new(v(FX_ONE, 0, -5 * FX_ONE), v(0, 0, FX_ONE));
    assert!(sphere.hit(&ray, TRACE_BIAS, i64::MAX).is_none());
}

#[test]
fn far_root_accepted_when_near_excluded() {
    // The near root (t = 3) falls below t_min = 4; the far root (t = 7)
    // lies inside the interval and is accepted.
    let sphere = Sphere::new(
        Vector3d::zero(),
        2 * FX_ONE,
        Material::new_specular(Vector3d::one(), Vector3d::one(), Vector3d::one(), 10),
    );
    let ray = Ray::new(v(0, 0, -5 * FX_ONE), v(0, 0, FX_ONE));
    let rec = sphere.hit(&ray, 4 * FX_ONE, i64::MAX).expect("must hit far root");
    assert_eq!(rec.t, 7 * FX_ONE);
    assert_eq!(rec.point, v(0, 0, 2 * FX_ONE));
    assert_eq!(rec.normal, v(0, 0, FX_ONE));
}

#[test]
fn scene_hit_nearest_regardless_of_order() {
    // Two non-overlapping spheres on the axis; the ray reaches the one
    // at z = -3 first (t = 1), in either list order.
    let mat = Material::new_specular(Vector3d::one(), Vector3d::one(), Vector3d::one(), 10);
    let near_sphere = Sphere::new(v(0, 0, -3 * FX_ONE), FX_ONE, mat);
    let far_sphere = Sphere::new(Vector3d::zero(), FX_ONE, mat);
    let ray = Ray::new(v(0, 0, -5 * FX_ONE), v(0, 0, FX_ONE));

    let mut scene = empty_scene();
    scene.objects = vec![near_sphere, far_sphere];
    let rec1 = scene.hit(&ray, TRACE_BIAS, i64::MAX).expect("must hit");

    let mut scene2 = empty_scene();
    scene2.objects = vec![far_sphere, near_sphere];
    let rec2 = scene2.hit(&ray, TRACE_BIAS, i64::MAX).expect("must hit");

    assert_eq!(rec1.t, FX_ONE);
    assert_eq!(rec1.t, rec2.t);
    assert_eq!(rec1.point, rec2.point);
    assert_eq!(rec1.normal, rec2.normal);
    assert_eq!(rec1.point, v(0, 0, -4 * FX_ONE));
    assert_eq!(rec1.normal, v(0, 0, -FX_ONE));
}

#[test]
fn occluded_light_contributes_ambient_only() {
    // A surface point at (0, 0, -1) lit by a light at (0, 0, -5); an
    // opaque sphere in between blocks the light, leaving only the
    // ambient term; without it the full ambient+diffuse+specular sum.
    let mat = Material::new_specular(Vector3d::one(), Vector3d::one(), Vector3d::one(), 10);
    let record = HitRecord {
        t: FX_ONE,
        point: v(0, 0, -FX_ONE),
        normal: v(0, 0, -FX_ONE),
        material: mat,
    };
    let light = Light {
        position: v(0, 0, -5 * FX_ONE),
        ambient_color: Vector3d::one(),
        diffuse_color: Vector3d::one(),
        specular_color: Vector3d::one(),
    };
    let eye = v(0, 0, -5 * FX_ONE);

    let mut open_scene = empty_scene();
    open_scene.lights = vec![light];
    let lit = mat.calc_brdf(&record, &open_scene, eye);
    assert_eq!(lit, v(3 * FX_ONE, 3 * FX_ONE, 3 * FX_ONE));

    let blocker = Sphere::new(v(0, 0, -3 * FX_ONE), FX_ONE, mat);
    let mut blocked_scene = empty_scene();
    blocked_scene.lights = vec![light];
    blocked_scene.objects = vec![blocker];
    let shadowed = mat.calc_brdf(&record, &blocked_scene, eye);
    assert_eq!(shadowed, v(FX_ONE, FX_ONE, FX_ONE));
}

#[test]
fn trace_depth_zero_is_black() {
    // Even with a sphere dead ahead, an exhausted depth budget returns
    // zero color.
    let mut scene = empty_scene();
    scene.objects = vec![Sphere::new(
        Vector3d::zero(),
        2 * FX_ONE,
        Material::new_specular(Vector3d::one(), Vector3d::one(), Vector3d::one(), 10),
    )];
    scene.lights = vec![Light {
        position: v(FX_ONE, 2 * FX_ONE, -5 * FX_ONE),
        ambient_color: Vector3d::one(),
        diffuse_color: Vector3d::one(),
        specular_color: Vector3d::one(),
    }];
    let ray = Ray::new(v(0, 0, -5 * FX_ONE), v(0, 0, FX_ONE));
    assert_eq!(trace(ray, 0, &scene), Vector3d::zero());
}

#[test]
fn mirror_sphere_returns_tinted_environment() {
    // A purely mirror-reflective sphere lit by nothing: reflecting into
    // the void gives black; reflecting onto an ambient-lit sphere gives
    // that color tinted by the reflection color (here one half).
    let half = FX_ONE / 2;
    let mirror = Material::new(
        Vector3d::zero(),
        Vector3d::zero(),
        Vector3d::zero(),
        0,
        v(half, half, half),
        Vector3d::zero(),
    );
    let mirror_sphere = Sphere::new(Vector3d::zero(), FX_ONE, mirror);
    let ray = Ray::new(v(0, 0, -5 * FX_ONE), v(0, 0, FX_ONE));

    let mut void_scene = empty_scene();
    void_scene.objects = vec![mirror_sphere];
    assert_eq!(trace(ray, 8, &void_scene), Vector3d::zero());

    // The reflected ray leaves along -z; an ambient-only sphere sits in
    // its path behind the camera.
    let glow = Material::new_specular(Vector3d::one(), Vector3d::zero(), Vector3d::zero(), 0);
    let target = Sphere::new(v(0, 0, -8 * FX_ONE), FX_ONE, glow);
    let mut lit_scene = empty_scene();
    lit_scene.objects = vec![mirror_sphere, target];
    lit_scene.lights = vec![Light {
        position: v(0, 2 * FX_ONE, -5 * FX_ONE),
        ambient_color: Vector3d::one(),
        diffuse_color: Vector3d::zero(),
        specular_color: Vector3d::zero(),
    }];
    assert_eq!(trace(ray, 8, &lit_scene), v(half, half, half));
}

#[test]
fn output_mapping_clamps_and_scales() {
    // 1.5 saturates to 255, -0.2 clamps to 0, 0.5 maps to the midpoint
    // of the 255.99 scale, and the boundaries behave like the clamps.
    assert_eq!(to_color(3 * FX_ONE / 2), 255);
    assert_eq!(to_color(-(FX_ONE / 5)), 0);
    assert_eq!(to_color(FX_ONE / 2), 127);
    assert_eq!(to_color(FX_ONE), 255);
    assert_eq!(to_color(0), 0);
    assert_eq!(to_color(FX_ONE / 4), 63);
}
