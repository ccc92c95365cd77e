use raytracer::fixed::{FX_ONE, SAT_LIMIT};
use raytracer::material::Material;
use raytracer::ray::Ray;
use raytracer::scene::HitRecord;
use raytracer::vector::Vector3d;

fn v(x: i64, y: i64, z: i64) -> Vector3d {
    Vector3d::new(x, y, z)
}

#[test]
fn dot_product_exact() {
    let a = v(FX_ONE, 2 * FX_ONE, 3 * FX_ONE);
    let b = v(4 * FX_ONE, 5 * FX_ONE, 6 * FX_ONE);
    assert_eq!(Vector3d::dot(a, b), 32 * FX_ONE);
    assert_eq!(a.len_sqr(), 14 * FX_ONE);
}

#[test]
fn cross_product_exact() {
    let x_axis = v(FX_ONE, 0, 0);
    let y_axis = v(0, FX_ONE, 0);
    assert_eq!(Vector3d::cross(x_axis, y_axis), v(0, 0, FX_ONE));
    assert_eq!(Vector3d::cross(y_axis, x_axis), v(0, 0, -FX_ONE));
}

#[test]
fn reflect_about_axis() {
    let incoming = v(FX_ONE, -FX_ONE, 0);
    let normal = v(0, FX_ONE, 0);
    assert_eq!(incoming.reflect(normal), v(-FX_ONE, -FX_ONE, 0));
}

#[test]
fn normalize_three_four_five() {
    let r = v(3 * FX_ONE, 4 * FX_ONE, 0).normalized();
    // 0.6 and 0.8, rounded down at the 1/65536 grid.
    assert_eq!(r, v(39321, 52428, 0));
    let axis = v(0, 0, -7 * FX_ONE).normalized();
    assert_eq!(axis, v(0, 0, -FX_ONE));
    assert_eq!(axis.len(), FX_ONE);
}

#[test]
fn scalar_scaling_and_division() {
    let a = v(2 * FX_ONE, -3 * FX_ONE, 0);
    assert_eq!(a.scale(FX_ONE / 2), v(FX_ONE, -3 * FX_ONE / 2, 0));
    assert_eq!(a.div_scalar(2 * FX_ONE), v(FX_ONE, -3 * FX_ONE / 2, 0));
}

#[test]
fn zero_predicates() {
    assert!(Vector3d::zero().is_zero());
    assert!(!v(1, 0, 0).is_zero());
    assert_eq!(Vector3d::one(), v(FX_ONE, FX_ONE, FX_ONE));
}

#[test]
fn ray_point_at_parameter() {
    let ray = Ray::new(v(FX_ONE, 0, 0), v(0, 2 * FX_ONE, 0));
    assert_eq!(ray.get_origin(), v(FX_ONE, 0, 0));
    assert_eq!(ray.get_direction(), v(0, 2 * FX_ONE, 0));
    assert_eq!(ray.point_at(FX_ONE / 2), v(FX_ONE, FX_ONE, 0));
}

#[test]
fn color_arithmetic_saturates() {
    let big = v(SAT_LIMIT, SAT_LIMIT, SAT_LIMIT);
    assert_eq!(big.comp_add(big), big);
    assert_eq!(big.comp_mul(big), big);
    let half = v(FX_ONE / 2, FX_ONE / 2, FX_ONE / 2);
    assert_eq!(half.comp_mul(Vector3d::one()), half);
    assert_eq!(half.comp_add(half), Vector3d::one());
}

#[test]
fn empty_material_and_default_record() {
    let rec = HitRecord::default();
    assert_eq!(rec.t, 0);
    assert!(rec.point.is_zero());
    assert!(rec.normal.is_zero());
    assert!(!rec.material.has_brdf());
    assert!(!rec.material.has_reflection());
    assert!(!rec.material.has_transmission());
    let mat = Material::new_specular(Vector3d::one(), Vector3d::zero(), Vector3d::zero(), 5);
    assert!(mat.has_brdf());
    assert!(!mat.has_reflection());
}
