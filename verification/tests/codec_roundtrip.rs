use raytracer::codec::{decode_scene, encode_scene};
use raytracer::fixed::FX_ONE;
use raytracer::material::Material;
use raytracer::scene::{Light, Scene};
use raytracer::sphere::Sphere;
use raytracer::vector::Vector3d;

fn v(x: i64, y: i64, z: i64) -> Vector3d {
    Vector3d::new(x, y, z)
}

fn sample_scene() -> Scene {
    let sphere1 = Sphere::new(
        v(3 * FX_ONE / 4, 0, 0),
        2 * FX_ONE,
        Material::new_specular(Vector3d::one(), v(FX_ONE, FX_ONE, 0), Vector3d::one(), 10),
    );
    let sphere2 = Sphere::new(
        v(-7 * FX_ONE / 2, 0, -3 * FX_ONE / 2),
        3 * FX_ONE / 2,
        Material::new(
            Vector3d::zero(),
            v(FX_ONE / 5, FX_ONE / 5, FX_ONE / 5),
            Vector3d::one(),
            20,
            Vector3d::one(),
            Vector3d::zero(),
        ),
    );
    let light = Light {
        position: v(FX_ONE, 2 * FX_ONE, -5 * FX_ONE),
        ambient_color: v(FX_ONE / 10, FX_ONE / 10, FX_ONE / 10),
        diffuse_color: Vector3d::one(),
        specular_color: v(FX_ONE / 10, FX_ONE / 10, FX_ONE / 10),
    };
    Scene {
        objects: vec![sphere1, sphere2],
        lights: vec![light],
        width: 500,
        height: 250,
        depth: 30,
        fov: 65,
        look_from: v(0, 0, -5 * FX_ONE),
        look_at: Vector3d::zero(),
        up: v(0, FX_ONE, 0),
    }
}

#[test]
fn scene_roundtrip_reproduces_all_fields() {
    let scene = sample_scene();
    let bytes = encode_scene(&scene);
    let back = decode_scene(&bytes).expect("a fresh encoding must decode");
    assert_eq!(back.objects, scene.objects);
    assert_eq!(back.lights, scene.lights);
    assert_eq!(back.width, scene.width);
    assert_eq!(back.height, scene.height);
    assert_eq!(back.depth, scene.depth);
    assert_eq!(back.fov, scene.fov);
    assert_eq!(back.look_from, scene.look_from);
    assert_eq!(back.look_at, scene.look_at);
    assert_eq!(back.up, scene.up);
}

#[test]
fn empty_scene_roundtrip() {
    let scene = Scene {
        objects: vec![],
        lights: vec![],
        width: 1,
        height: 1,
        depth: 0,
        fov: 90,
        look_from: Vector3d::zero(),
        look_at: v(0, 0, FX_ONE),
        up: v(0, FX_ONE, 0),
    };
    let bytes = encode_scene(&scene);
    assert_eq!(bytes.len(), 8 * 15);
    let back = decode_scene(&bytes).expect("must decode");
    assert_eq!(back.objects, scene.objects);
    assert_eq!(back.lights, scene.lights);
    assert_eq!(back.fov, 90);
}

#[test]
fn malformed_streams_are_rejected() {
    // Not a whole number of words.
    assert!(decode_scene(&vec![1u8, 2, 3]).is_none());
    // Too short for the header.
    assert!(decode_scene(&vec![]).is_none());
    // A truncated encoding: drop the last word.
    let scene = sample_scene();
    let mut bytes = encode_scene(&scene);
    for _ in 0..8 {
        bytes.pop();
    }
    assert!(decode_scene(&bytes).is_none());
}
