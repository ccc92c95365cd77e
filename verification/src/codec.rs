//! A byte codec for scene records.
//!
//! A scene is serialized as a stream of 64-bit words (list lengths first,
//! then each sphere, each light, the image and camera parameters), and
//! each word as 8 little-endian bytes. Decoding inverts both layers; the
//! round trip is proved by `lemma_scene_roundtrip`.

use vstd::prelude::*;
use crate::vector::Vector3d;
use crate::material::Material;
use crate::sphere::Sphere;
use crate::scene::{Scene, Light};

verus! {

// ---------------------------------------------------------------- words

/// The words of one vector: its three components.
pub open spec fn vec3_words_s(v: Vector3d) -> Seq<i64> {
    seq![v.x, v.y, v.z]
}

/// The words of one material: five colors and the shininess exponent.
pub open spec fn mat_words_s(m: Material) -> Seq<i64> {
    vec3_words_s(m.ambient_color) + vec3_words_s(m.diffuse_color) + vec3_words_s(
        m.specular_color,
    ) + seq![m.shininess as i64] + vec3_words_s(m.reflection_color) + vec3_words_s(
        m.transmission_color,
    )
}

/// The words of one sphere: center, radius, material (20 words).
pub open spec fn sphere_words_s(s: Sphere) -> Seq<i64> {
    vec3_words_s(s.center) + seq![s.radius] + mat_words_s(s.material)
}

/// The words of one light: position and three colors (12 words).
pub open spec fn light_words_s(l: Light) -> Seq<i64> {
    vec3_words_s(l.position) + vec3_words_s(l.ambient_color) + vec3_words_s(l.diffuse_color)
        + vec3_words_s(l.specular_color)
}

pub open spec fn spheres_words_s(objs: Seq<Sphere>) -> Seq<i64>
    decreases objs.len(),
{
    if objs.len() == 0 {
        Seq::empty()
    } else {
        sphere_words_s(objs[0]) + spheres_words_s(objs.drop_first())
    }
}

pub open spec fn lights_words_s(ls: Seq<Light>) -> Seq<i64>
    decreases ls.len(),
{
    if ls.len() == 0 {
        Seq::empty()
    } else {
        light_words_s(ls[0]) + lights_words_s(ls.drop_first())
    }
}

/// The word stream of a whole scene.
pub open spec fn scene_words_s(sc: Scene) -> Seq<i64> {
    seq![sc.objects@.len() as i64] + spheres_words_s(sc.objects@) + seq![sc.lights@.len() as i64]
        + lights_words_s(sc.lights@) + seq![
        sc.width as i64,
        sc.height as i64,
        sc.depth as i64,
        sc.fov as i64,
    ] + vec3_words_s(sc.look_from) + vec3_words_s(sc.look_at) + vec3_words_s(sc.up)
}

pub proof fn lemma_spheres_words_len(objs: Seq<Sphere>)
    ensures
        spheres_words_s(objs).len() == 20 * objs.len(),
    decreases objs.len(),
{
    if objs.len() > 0 {
        lemma_spheres_words_len(objs.drop_first());
    }
}

pub proof fn lemma_lights_words_len(ls: Seq<Light>)
    ensures
        lights_words_s(ls).len() == 12 * ls.len(),
    decreases ls.len(),
{
    if ls.len() > 0 {
        lemma_lights_words_len(ls.drop_first());
    }
}

/// Appending one sphere appends its words.
proof fn lemma_spheres_words_snoc(objs: Seq<Sphere>, s: Sphere)
    ensures
        spheres_words_s(objs.push(s)) == spheres_words_s(objs) + sphere_words_s(s),
    decreases objs.len(),
{
    let whole = objs.push(s);
    if objs.len() == 0 {
        assert(whole[0] == s);
        assert(whole.drop_first() =~= Seq::<Sphere>::empty());
        assert(spheres_words_s(whole) == sphere_words_s(s) + spheres_words_s(
            Seq::<Sphere>::empty(),
        ));
        assert(sphere_words_s(s) + Seq::<i64>::empty() =~= Seq::<i64>::empty()
            + sphere_words_s(s));
    } else {
        let d = objs.drop_first();
        assert(whole[0] == objs[0]);
        assert(whole.drop_first() =~= d.push(s));
        lemma_spheres_words_snoc(d, s);
        assert(spheres_words_s(whole) == sphere_words_s(objs[0]) + (spheres_words_s(d)
            + sphere_words_s(s)));
        assert(sphere_words_s(objs[0]) + (spheres_words_s(d) + sphere_words_s(s)) =~= (
        sphere_words_s(objs[0]) + spheres_words_s(d)) + sphere_words_s(s));
        assert(spheres_words_s(objs) == sphere_words_s(objs[0]) + spheres_words_s(d));
    }
}

/// Appending one light appends its words.
proof fn lemma_lights_words_snoc(ls: Seq<Light>, l: Light)
    ensures
        lights_words_s(ls.push(l)) == lights_words_s(ls) + light_words_s(l),
    decreases ls.len(),
{
    let whole = ls.push(l);
    if ls.len() == 0 {
        assert(whole[0] == l);
        assert(whole.drop_first() =~= Seq::<Light>::empty());
        assert(lights_words_s(whole) == light_words_s(l) + lights_words_s(Seq::<Light>::empty()));
        assert(light_words_s(l) + Seq::<i64>::empty() =~= Seq::<i64>::empty() + light_words_s(l));
    } else {
        let d = ls.drop_first();
        assert(whole[0] == ls[0]);
        assert(whole.drop_first() =~= d.push(l));
        lemma_lights_words_snoc(d, l);
        assert(lights_words_s(whole) == light_words_s(ls[0]) + (lights_words_s(d) + light_words_s(
            l,
        )));
        assert(light_words_s(ls[0]) + (lights_words_s(d) + light_words_s(l)) =~= (light_words_s(
            ls[0],
        ) + lights_words_s(d)) + light_words_s(l));
        assert(lights_words_s(ls) == light_words_s(ls[0]) + lights_words_s(d));
    }
}

// ---------------------------------------------------------------- bytes

/// One word as 8 little-endian bytes.
pub open spec fn word_bytes_s(v: i64) -> Seq<u8> {
    seq![
        (v as u64) as u8,
        ((v as u64) >> 8) as u8,
        ((v as u64) >> 16) as u8,
        ((v as u64) >> 24) as u8,
        ((v as u64) >> 32) as u8,
        ((v as u64) >> 40) as u8,
        ((v as u64) >> 48) as u8,
        ((v as u64) >> 56) as u8,
    ]
}

/// A word stream as bytes.
pub open spec fn words_bytes_s(w: Seq<i64>) -> Seq<u8>
    decreases w.len(),
{
    if w.len() == 0 {
        Seq::empty()
    } else {
        word_bytes_s(w[0]) + words_bytes_s(w.drop_first())
    }
}

/// The word encoded at byte offset `8 * i`.
pub open spec fn byte_word_s(b: Seq<u8>, i: int) -> i64 {
    (((b[8 * i] as u64) | ((b[8 * i + 1] as u64) << 8) | ((b[8 * i + 2] as u64) << 16) | ((b[8 * i
        + 3] as u64) << 24) | ((b[8 * i + 4] as u64) << 32) | ((b[8 * i + 5] as u64) << 40) | ((b[8
        * i + 6] as u64) << 48) | ((b[8 * i + 7] as u64) << 56)) as i64)
}

/// The whole byte stream read back as words.
pub open spec fn bytes_words_s(b: Seq<u8>) -> Seq<i64> {
    Seq::new(b.len() / 8, |i: int| byte_word_s(b, i))
}

pub proof fn lemma_words_bytes_len(w: Seq<i64>)
    ensures
        words_bytes_s(w).len() == 8 * w.len(),
    decreases w.len(),
{
    if w.len() > 0 {
        lemma_words_bytes_len(w.drop_first());
    }
}

/// Appending one word appends its bytes.
proof fn lemma_words_bytes_snoc(w: Seq<i64>, v: i64)
    ensures
        words_bytes_s(w.push(v)) == words_bytes_s(w) + word_bytes_s(v),
    decreases w.len(),
{
    let whole = w.push(v);
    if w.len() == 0 {
        assert(whole[0] == v);
        assert(whole.drop_first() =~= Seq::<i64>::empty());
        assert(words_bytes_s(whole) == word_bytes_s(v) + words_bytes_s(Seq::<i64>::empty()));
        assert(word_bytes_s(v) + Seq::<u8>::empty() =~= Seq::<u8>::empty() + word_bytes_s(v));
    } else {
        let d = w.drop_first();
        assert(whole[0] == w[0]);
        assert(whole.drop_first() =~= d.push(v));
        lemma_words_bytes_snoc(d, v);
        assert(words_bytes_s(whole) == word_bytes_s(w[0]) + (words_bytes_s(d) + word_bytes_s(v)));
        assert(word_bytes_s(w[0]) + (words_bytes_s(d) + word_bytes_s(v)) =~= (word_bytes_s(w[0])
            + words_bytes_s(d)) + word_bytes_s(v));
        assert(words_bytes_s(w) == word_bytes_s(w[0]) + words_bytes_s(d));
    }
}

/// Reading 8 bytes that encode a word gives the word back.
proof fn lemma_word_roundtrip(v: i64, b: Seq<u8>, i: int)
    requires
        0 <= i,
        b.len() >= 8 * i + 8,
        b.subrange(8 * i, 8 * i + 8) == word_bytes_s(v),
    ensures
        byte_word_s(b, i) == v,
{
    let u = v as u64;
    let sub = b.subrange(8 * i, 8 * i + 8);
    assert(b[8 * i + 0] == sub[0]);
    assert(b[8 * i + 1] == sub[1]);
    assert(b[8 * i + 2] == sub[2]);
    assert(b[8 * i + 3] == sub[3]);
    assert(b[8 * i + 4] == sub[4]);
    assert(b[8 * i + 5] == sub[5]);
    assert(b[8 * i + 6] == sub[6]);
    assert(b[8 * i + 7] == sub[7]);
    assert((((u as u8) as u64) | ((((u >> 8) as u8) as u64) << 8) | ((((u >> 16) as u8) as u64)
        << 16) | ((((u >> 24) as u8) as u64) << 24) | ((((u >> 32) as u8) as u64) << 32) | ((((u
        >> 40) as u8) as u64) << 40) | ((((u >> 48) as u8) as u64) << 48) | ((((u >> 56) as u8)
        as u64) << 56)) == u) by (bit_vector);
    assert(((v as u64) as i64) == v) by (bit_vector);
}

/// The bytes of word `i` sit at offset `8 * i` of the encoded stream.
proof fn lemma_words_bytes_offset(w: Seq<i64>, i: int)
    requires
        0 <= i < w.len(),
    ensures
        words_bytes_s(w).subrange(8 * i, 8 * i + 8) == word_bytes_s(w[i]),
    decreases i,
{
    lemma_words_bytes_len(w);
    if i == 0 {
        assert(words_bytes_s(w).subrange(0, 8) =~= word_bytes_s(w[0]));
    } else {
        lemma_words_bytes_offset(w.drop_first(), i - 1);
        lemma_words_bytes_len(w.drop_first());
        let subw = words_bytes_s(w).subrange(8 * i, 8 * i + 8);
        let subd = words_bytes_s(w.drop_first()).subrange(8 * (i - 1), 8 * (i - 1) + 8);
        assert forall|k: int| 0 <= k < 8 implies subw[k] == word_bytes_s(w[i])[k] by {
            assert(subw[k] == words_bytes_s(w)[8 * i + k]);
            assert(words_bytes_s(w)[8 * i + k] == words_bytes_s(w.drop_first())[8 * i + k - 8]);
            assert(subd[k] == words_bytes_s(w.drop_first())[8 * (i - 1) + k]);
            assert(subd[k] == word_bytes_s(w.drop_first()[i - 1])[k]);
        }
        assert(subw =~= word_bytes_s(w[i]));
    }
}

/// Reading back a whole encoded word stream gives the stream back.
pub proof fn lemma_words_roundtrip(w: Seq<i64>)
    ensures
        bytes_words_s(words_bytes_s(w)) == w,
{
    lemma_words_bytes_len(w);
    let b = words_bytes_s(w);
    assert(b.len() / 8 == w.len()) by {
        crate::fixed::lemma_div_exact(b.len() as int, 8, w.len() as int);
    }
    assert forall|i: int| 0 <= i < w.len() implies byte_word_s(b, i) == w[i] by {
        lemma_words_bytes_offset(w, i);
        lemma_word_roundtrip(w[i], b, i);
    }
    assert(bytes_words_s(b) =~= w);
}

// ---------------------------------------------------------------- parse

/// The decoded fields of a scene, before they are packed into a `Scene`.
pub ghost struct SceneParts {
    pub objects: Seq<Sphere>,
    pub lights: Seq<Light>,
    pub width: u32,
    pub height: u32,
    pub depth: u32,
    pub fov: u8,
    pub look_from: Vector3d,
    pub look_at: Vector3d,
    pub up: Vector3d,
}

/// A decoded scene carries exactly the fields of `sc`.
pub open spec fn parts_match_s(p: SceneParts, sc: Scene) -> bool {
    &&& p.objects == sc.objects@
    &&& p.lights == sc.lights@
    &&& p.width == sc.width
    &&& p.height == sc.height
    &&& p.depth == sc.depth
    &&& p.fov == sc.fov
    &&& p.look_from == sc.look_from
    &&& p.look_at == sc.look_at
    &&& p.up == sc.up
}

pub open spec fn parse_vec3_s(w: Seq<i64>, p: int) -> Vector3d {
    Vector3d { x: w[p], y: w[p + 1], z: w[p + 2] }
}

pub open spec fn parse_mat_s(w: Seq<i64>, p: int) -> Material {
    Material {
        ambient_color: parse_vec3_s(w, p),
        diffuse_color: parse_vec3_s(w, p + 3),
        specular_color: parse_vec3_s(w, p + 6),
        shininess: w[p + 9] as u32,
        reflection_color: parse_vec3_s(w, p + 10),
        transmission_color: parse_vec3_s(w, p + 13),
    }
}

/// The shininess word must fit its field.
pub open spec fn mat_words_ok_s(w: Seq<i64>, p: int) -> bool {
    0 <= w[p + 9] <= u32::MAX
}

pub open spec fn parse_sphere_s(w: Seq<i64>, p: int) -> Sphere {
    Sphere { center: parse_vec3_s(w, p), radius: w[p + 3], material: parse_mat_s(w, p + 4) }
}

pub open spec fn parse_light_s(w: Seq<i64>, p: int) -> Light {
    Light {
        position: parse_vec3_s(w, p),
        ambient_color: parse_vec3_s(w, p + 3),
        diffuse_color: parse_vec3_s(w, p + 6),
        specular_color: parse_vec3_s(w, p + 9),
    }
}

pub open spec fn parse_spheres_s(w: Seq<i64>, p: int, n: nat) -> Seq<Sphere>
    decreases n,
{
    if n == 0 {
        Seq::empty()
    } else {
        seq![parse_sphere_s(w, p)] + parse_spheres_s(w, p + 20, (n - 1) as nat)
    }
}

pub open spec fn parse_lights_s(w: Seq<i64>, p: int, n: nat) -> Seq<Light>
    decreases n,
{
    if n == 0 {
        Seq::empty()
    } else {
        seq![parse_light_s(w, p)] + parse_lights_s(w, p + 12, (n - 1) as nat)
    }
}

/// The sphere block at index `i` carries a representable shininess word.
pub open spec fn sphere_block_ok_s(w: Seq<i64>, p: int, i: int) -> bool {
    mat_words_ok_s(w, p + 20 * i + 4)
}

/// Every sphere block carries a representable shininess word.
pub open spec fn spheres_words_ok_s(w: Seq<i64>, p: int, n: nat) -> bool {
    forall|i: int| 0 <= i < n ==> #[trigger] sphere_block_ok_s(w, p, i)
}

/// The complete structural well-formedness of a word stream: counts in
/// range, total length exact, every cast-down field in range.
pub open spec fn words_ok_s(w: Seq<i64>) -> bool {
    &&& w.len() >= 1
    &&& 0 <= w[0] <= u32::MAX
    &&& {
        let n = w[0] as int;
        &&& w.len() >= 1 + 20 * n + 1
        &&& 0 <= w[1 + 20 * n] <= u32::MAX
        &&& {
            let m = w[1 + 20 * n] as int;
            let tail = 2 + 20 * n + 12 * m;
            &&& w.len() == tail + 13
            &&& spheres_words_ok_s(w, 1, n as nat)
            &&& 0 <= w[tail] <= u32::MAX
            &&& 0 <= w[tail + 1] <= u32::MAX
            &&& 0 <= w[tail + 2] <= u32::MAX
            &&& 0 <= w[tail + 3] <= u8::MAX
        }
    }
}

/// The structural parse of a word stream (meaningful when `words_ok_s`).
pub open spec fn parse_scene_s(w: Seq<i64>) -> SceneParts {
    let n = w[0] as int;
    let m = w[1 + 20 * n] as int;
    let tail = 2 + 20 * n + 12 * m;
    SceneParts {
        objects: parse_spheres_s(w, 1, n as nat),
        lights: parse_lights_s(w, 2 + 20 * n, m as nat),
        width: w[tail] as u32,
        height: w[tail + 1] as u32,
        depth: w[tail + 2] as u32,
        fov: w[tail + 3] as u8,
        look_from: parse_vec3_s(w, tail + 4),
        look_at: parse_vec3_s(w, tail + 7),
        up: parse_vec3_s(w, tail + 10),
    }
}

/// What decoding makes of a byte stream: the parsed scene when the
/// stream is a whole number of words and structurally well formed.
pub open spec fn decode_spec(b: Seq<u8>) -> Option<SceneParts> {
    if b.len() % 8 == 0 && words_ok_s(bytes_words_s(b)) {
        Some(parse_scene_s(bytes_words_s(b)))
    } else {
        None
    }
}

// ------------------------------------------------------------ roundtrip

/// Parsing sphere blocks out of a stream that holds their words at `p`.
proof fn lemma_parse_spheres_of_words(objs: Seq<Sphere>, w: Seq<i64>, p: int)
    requires
        0 <= p,
        p + 20 * objs.len() <= w.len(),
        w.subrange(p, p + 20 * objs.len()) == spheres_words_s(objs),
    ensures
        parse_spheres_s(w, p, objs.len()) == objs,
        spheres_words_ok_s(w, p, objs.len()),
    decreases objs.len(),
{
    lemma_spheres_words_len(objs);
    if objs.len() > 0 {
        let s = objs[0];
        let sub = w.subrange(p, p + 20 * objs.len());
        lemma_spheres_words_len(objs.drop_first());
        assert forall|k: int| 0 <= k < 20 implies w[p + k] == sphere_words_s(s)[k] by {
            assert(w[p + k] == sub[k]);
            assert(spheres_words_s(objs)[k] == sphere_words_s(s)[k]);
        }
        assert(parse_sphere_s(w, p) == s) by {
            assert(w[p + 0] == sphere_words_s(s)[0]);
            assert(w[p + 1] == sphere_words_s(s)[1]);
            assert(w[p + 2] == sphere_words_s(s)[2]);
            assert(w[p + 3] == sphere_words_s(s)[3]);
            assert(w[p + 4] == sphere_words_s(s)[4]);
            assert(w[p + 5] == sphere_words_s(s)[5]);
            assert(w[p + 6] == sphere_words_s(s)[6]);
            assert(w[p + 7] == sphere_words_s(s)[7]);
            assert(w[p + 8] == sphere_words_s(s)[8]);
            assert(w[p + 9] == sphere_words_s(s)[9]);
            assert(w[p + 10] == sphere_words_s(s)[10]);
            assert(w[p + 11] == sphere_words_s(s)[11]);
            assert(w[p + 12] == sphere_words_s(s)[12]);
            assert(w[p + 13] == sphere_words_s(s)[13]);
            assert(w[p + 14] == sphere_words_s(s)[14]);
            assert(w[p + 15] == sphere_words_s(s)[15]);
            assert(w[p + 16] == sphere_words_s(s)[16]);
            assert(w[p + 17] == sphere_words_s(s)[17]);
            assert(w[p + 18] == sphere_words_s(s)[18]);
            assert(w[p + 19] == sphere_words_s(s)[19]);
        }
        assert(mat_words_ok_s(w, p + 4)) by {
            assert(mat_words_s(s.material)[9] == s.material.shininess as i64);
            assert(sphere_words_s(s)[13] == mat_words_s(s.material)[9]);
            assert(w[p + 13] == sphere_words_s(s)[13]);
        }
        let subd = w.subrange(p + 20, p + 20 + 20 * objs.drop_first().len());
        assert forall|k: int| 0 <= k < 20 * objs.drop_first().len() implies subd[k]
            == spheres_words_s(objs.drop_first())[k] by {
            assert(subd[k] == w[p + 20 + k]);
            assert(w[p + (20 + k)] == sub[20 + k]);
            assert(spheres_words_s(objs)[20 + k] == spheres_words_s(objs.drop_first())[k]);
        }
        assert(subd =~= spheres_words_s(objs.drop_first()));
        lemma_parse_spheres_of_words(objs.drop_first(), w, p + 20);
        assert(parse_spheres_s(w, p, objs.len()) =~= objs) by {
            assert(parse_spheres_s(w, p + 20, objs.drop_first().len()) == objs.drop_first());
        }
        assert forall|i: int| 0 <= i < objs.len() implies #[trigger] sphere_block_ok_s(
            w,
            p,
            i,
        ) by {
            if i == 0 {
                assert(mat_words_ok_s(w, p + 4));
            } else {
                assert(sphere_block_ok_s(w, p + 20, i - 1));
                assert(p + 20 + 20 * (i - 1) + 4 == p + 20 * i + 4);
            }
        }
    }
}

/// Parsing light blocks out of a stream that holds their words at `p`.
proof fn lemma_parse_lights_of_words(ls: Seq<Light>, w: Seq<i64>, p: int)
    requires
        0 <= p,
        p + 12 * ls.len() <= w.len(),
        w.subrange(p, p + 12 * ls.len()) == lights_words_s(ls),
    ensures
        parse_lights_s(w, p, ls.len()) == ls,
    decreases ls.len(),
{
    lemma_lights_words_len(ls);
    if ls.len() > 0 {
        let l = ls[0];
        let sub = w.subrange(p, p + 12 * ls.len());
        lemma_lights_words_len(ls.drop_first());
        assert forall|k: int| 0 <= k < 12 implies w[p + k] == light_words_s(l)[k] by {
            assert(w[p + k] == sub[k]);
            assert(lights_words_s(ls)[k] == light_words_s(l)[k]);
        }
        assert(parse_light_s(w, p) == l) by {
            assert(w[p + 0] == light_words_s(l)[0]);
            assert(w[p + 1] == light_words_s(l)[1]);
            assert(w[p + 2] == light_words_s(l)[2]);
            assert(w[p + 3] == light_words_s(l)[3]);
            assert(w[p + 4] == light_words_s(l)[4]);
            assert(w[p + 5] == light_words_s(l)[5]);
            assert(w[p + 6] == light_words_s(l)[6]);
            assert(w[p + 7] == light_words_s(l)[7]);
            assert(w[p + 8] == light_words_s(l)[8]);
            assert(w[p + 9] == light_words_s(l)[9]);
            assert(w[p + 10] == light_words_s(l)[10]);
            assert(w[p + 11] == light_words_s(l)[11]);
        }
        let subd = w.subrange(p + 12, p + 12 + 12 * ls.drop_first().len());
        assert forall|k: int| 0 <= k < 12 * ls.drop_first().len() implies subd[k]
            == lights_words_s(ls.drop_first())[k] by {
            assert(subd[k] == w[p + 12 + k]);
            assert(w[p + (12 + k)] == sub[12 + k]);
            assert(lights_words_s(ls)[12 + k] == lights_words_s(ls.drop_first())[k]);
        }
        assert(subd =~= lights_words_s(ls.drop_first()));
        lemma_parse_lights_of_words(ls.drop_first(), w, p + 12);
        assert(parse_lights_s(w, p, ls.len()) =~= ls);
    }
}

/// The word-level round trip: a scene's words are well formed and parse
/// back to the very same fields.
pub proof fn lemma_scene_words_roundtrip(sc: Scene)
    requires
        sc.objects@.len() <= u32::MAX,
        sc.lights@.len() <= u32::MAX,
    ensures
        words_ok_s(scene_words_s(sc)),
        parts_match_s(parse_scene_s(scene_words_s(sc)), sc),
{
    let w = scene_words_s(sc);
    let n = sc.objects@.len() as int;
    let m = sc.lights@.len() as int;
    lemma_spheres_words_len(sc.objects@);
    lemma_lights_words_len(sc.lights@);
    assert(w.len() == 1 + 20 * n + 1 + 12 * m + 4 + 9);
    assert(w[0] == n as i64);
    assert(w.subrange(1, 1 + 20 * n) =~= spheres_words_s(sc.objects@));
    lemma_parse_spheres_of_words(sc.objects@, w, 1);
    assert(w[1 + 20 * n] == m as i64);
    assert(w.subrange(2 + 20 * n, 2 + 20 * n + 12 * m) =~= lights_words_s(sc.lights@));
    lemma_parse_lights_of_words(sc.lights@, w, 2 + 20 * n);
    let tail = 2 + 20 * n + 12 * m;
    assert(w[tail] == sc.width as i64);
    assert(w[tail + 1] == sc.height as i64);
    assert(w[tail + 2] == sc.depth as i64);
    assert(w[tail + 3] == sc.fov as i64);
    assert(parse_vec3_s(w, tail + 4) == sc.look_from);
    assert(parse_vec3_s(w, tail + 7) == sc.look_at);
    assert(parse_vec3_s(w, tail + 10) == sc.up);
}

/// The full round trip through bytes: encoding a scene and decoding the
/// bytes reproduces every primitive, light and camera field.
pub proof fn lemma_scene_roundtrip(sc: Scene)
    requires
        sc.objects@.len() <= u32::MAX,
        sc.lights@.len() <= u32::MAX,
    ensures
        decode_spec(words_bytes_s(scene_words_s(sc))) matches Some(p) && parts_match_s(p, sc),
{
    lemma_scene_words_roundtrip(sc);
    lemma_words_roundtrip(scene_words_s(sc));
    lemma_words_bytes_len(scene_words_s(sc));
    let b = words_bytes_s(scene_words_s(sc));
    assert(b.len() % 8 == 0) by {
        vstd::arithmetic::div_mod::lemma_mod_multiples_basic(scene_words_s(sc).len() as int, 8);
        assert(8 * scene_words_s(sc).len() == scene_words_s(sc).len() * 8) by (nonlinear_arith);
    }
}

// ------------------------------------------------------------- encoding

/// Append the 8 little-endian bytes of one word.
fn push_word(out: &mut Vec<u8>, v: i64)
    ensures
        final(out)@ == old(out)@ + word_bytes_s(v),
{
    let u: u64 = #[verifier::truncate] (v as u64);
    out.push(#[verifier::truncate] (u as u8));
    out.push(#[verifier::truncate] ((u >> 8) as u8));
    out.push(#[verifier::truncate] ((u >> 16) as u8));
    out.push(#[verifier::truncate] ((u >> 24) as u8));
    out.push(#[verifier::truncate] ((u >> 32) as u8));
    out.push(#[verifier::truncate] ((u >> 40) as u8));
    out.push(#[verifier::truncate] ((u >> 48) as u8));
    out.push(#[verifier::truncate] ((u >> 56) as u8));
    proof {
        assert(out@ =~= old(out)@ + word_bytes_s(v));
    }
}

fn push_vec3(out: &mut Vec<i64>, v: &Vector3d)
    ensures
        final(out)@ == old(out)@ + vec3_words_s(*v),
{
    out.push(v.x);
    out.push(v.y);
    out.push(v.z);
    proof {
        assert(out@ =~= old(out)@ + vec3_words_s(*v));
    }
}

fn push_material(out: &mut Vec<i64>, m: &Material)
    ensures
        final(out)@ == old(out)@ + mat_words_s(*m),
{
    push_vec3(out, &m.ambient_color);
    push_vec3(out, &m.diffuse_color);
    push_vec3(out, &m.specular_color);
    out.push(m.shininess as i64);
    push_vec3(out, &m.reflection_color);
    push_vec3(out, &m.transmission_color);
    proof {
        assert(out@ =~= old(out)@ + mat_words_s(*m));
    }
}

fn push_sphere(out: &mut Vec<i64>, s: &Sphere)
    ensures
        final(out)@ == old(out)@ + sphere_words_s(*s),
{
    push_vec3(out, &s.center);
    out.push(s.radius);
    push_material(out, &s.material);
    proof {
        assert(out@ =~= old(out)@ + sphere_words_s(*s));
    }
}

fn push_light(out: &mut Vec<i64>, l: &Light)
    ensures
        final(out)@ == old(out)@ + light_words_s(*l),
{
    push_vec3(out, &l.position);
    push_vec3(out, &l.ambient_color);
    push_vec3(out, &l.diffuse_color);
    push_vec3(out, &l.specular_color);
    proof {
        assert(out@ =~= old(out)@ + light_words_s(*l));
    }
}

/// Serialize a scene record to bytes.
pub fn encode_scene(scene: &Scene) -> (out: Vec<u8>)
    requires
        scene.objects@.len() <= u32::MAX,
        scene.lights@.len() <= u32::MAX,
    ensures
        out@ == words_bytes_s(scene_words_s(*scene)),
{
    let mut words: Vec<i64> = Vec::new();
    let n: usize = scene.objects.len();
    words.push(n as i64);
    let mut i: usize = 0;
    while i < n
        invariant
            n == scene.objects@.len(),
            n <= u32::MAX,
            0 <= i <= n,
            words@ == seq![n as i64] + spheres_words_s(scene.objects@.subrange(0, i as int)),
        decreases n - i,
    {
        let ghost prefix = scene.objects@.subrange(0, i as int);
        push_sphere(&mut words, &scene.objects[i]);
        proof {
            lemma_spheres_words_snoc(prefix, scene.objects@[i as int]);
            assert(scene.objects@.subrange(0, i + 1 as int) =~= prefix.push(
                scene.objects@[i as int],
            ));
            assert(seq![n as i64] + (spheres_words_s(prefix) + sphere_words_s(
                scene.objects@[i as int],
            )) =~= (seq![n as i64] + spheres_words_s(prefix)) + sphere_words_s(
                scene.objects@[i as int],
            ));
        }
        i = i + 1;
    }
    proof {
        assert(scene.objects@.subrange(0, n as int) =~= scene.objects@);
    }
    let m: usize = scene.lights.len();
    words.push(m as i64);
    let ghost head = seq![n as i64] + spheres_words_s(scene.objects@) + seq![m as i64];
    proof {
        assert(words@ =~= head);
    }
    let mut j: usize = 0;
    while j < m
        invariant
            m == scene.lights@.len(),
            m <= u32::MAX,
            0 <= j <= m,
            head == seq![n as i64] + spheres_words_s(scene.objects@) + seq![m as i64],
            words@ == head + lights_words_s(scene.lights@.subrange(0, j as int)),
        decreases m - j,
    {
        let ghost prefix = scene.lights@.subrange(0, j as int);
        push_light(&mut words, &scene.lights[j]);
        proof {
            lemma_lights_words_snoc(prefix, scene.lights@[j as int]);
            assert(scene.lights@.subrange(0, j + 1 as int) =~= prefix.push(
                scene.lights@[j as int],
            ));
            assert(head + (lights_words_s(prefix) + light_words_s(scene.lights@[j as int])) =~= (
            head + lights_words_s(prefix)) + light_words_s(scene.lights@[j as int]));
        }
        j = j + 1;
    }
    proof {
        assert(scene.lights@.subrange(0, m as int) =~= scene.lights@);
    }
    words.push(scene.width as i64);
    words.push(scene.height as i64);
    words.push(scene.depth as i64);
    words.push(scene.fov as i64);
    push_vec3(&mut words, &scene.look_from);
    push_vec3(&mut words, &scene.look_at);
    push_vec3(&mut words, &scene.up);
    proof {
        assert(words@ =~= scene_words_s(*scene));
    }
    let total: usize = words.len();
    let mut out: Vec<u8> = Vec::new();
    let mut k: usize = 0;
    while k < total
        invariant
            total == words@.len(),
            0 <= k <= total,
            out@ == words_bytes_s(words@.subrange(0, k as int)),
            words@ == scene_words_s(*scene),
        decreases total - k,
    {
        let ghost prefix = words@.subrange(0, k as int);
        push_word(&mut out, words[k]);
        proof {
            lemma_words_bytes_snoc(prefix, words@[k as int]);
            assert(words@.subrange(0, k + 1 as int) =~= prefix.push(words@[k as int]));
        }
        k = k + 1;
    }
    proof {
        assert(words@.subrange(0, total as int) =~= words@);
    }
    out
}

// ------------------------------------------------------------- decoding

/// Read the word at index `i` of the byte stream.
/// Read the word at index `i` of the byte stream.
fn read_word(bytes: &Vec<u8>, i: usize) -> (r: i64)
    requires
        8 * (i as int) + 8 <= bytes@.len(),
    ensures
        r == byte_word_s(bytes@, i as int),
{
    let blen: usize = bytes.len();
    proof {
        assert(8 * (i as int) + 8 <= blen);
    }
    let base: usize = 8 * i;
    let u: u64 = (bytes[base] as u64) | ((bytes[base + 1] as u64) << 8) | ((bytes[base + 2]
        as u64) << 16) | ((bytes[base + 3] as u64) << 24) | ((bytes[base + 4] as u64) << 32) | ((
    bytes[base + 5] as u64) << 40) | ((bytes[base + 6] as u64) << 48) | ((bytes[base + 7] as u64)
        << 56);
    #[verifier::truncate] (u as i64)
}

/// Parse `n` sphere blocks starting at word 1, mirroring
/// `parse_spheres_s`; `None` when some shininess word is out of range.
fn decode_spheres(words: &Vec<i64>, n: u64) -> (r: Option<Vec<Sphere>>)
    requires
        n <= u32::MAX,
        words@.len() >= 2 + 20 * (n as int),
    ensures
        match r {
            Some(v) => v@ == parse_spheres_s(words@, 1, n as nat) && spheres_words_ok_s(
                words@,
                1,
                n as nat,
            ),
            None => !spheres_words_ok_s(words@, 1, n as nat),
        },
{
    let total: usize = words.len();
    let mut objects: Vec<Sphere> = Vec::new();
    let mut si: u64 = 0;
    while si < n
        invariant
            n <= u32::MAX,
            total == words@.len(),
            words@.len() >= 2 + 20 * (n as int),
            0 <= si <= n,
            objects@.len() == si as int,
            parse_spheres_s(words@, 1, n as nat) == objects@ + parse_spheres_s(
                words@,
                1 + 20 * (si as int),
                (n - si) as nat,
            ),
            forall|j: int| 0 <= j < si ==> #[trigger] sphere_block_ok_s(words@, 1, j),
        decreases n - si,
    {
        let p: u64 = 1 + 20 * si;
        proof {
            assert(p as int + 20 <= total as int);
        }
        let shin_w: i64 = words[(p + 13) as usize];
        if shin_w < 0 || shin_w > 0xffff_ffff {
            proof {
                assert(!sphere_block_ok_s(words@, 1, si as int));
            }
            return None;
        }
        let sphere = Sphere {
            center: Vector3d {
                x: words[p as usize],
                y: words[(p + 1) as usize],
                z: words[(p + 2) as usize],
            },
            radius: words[(p + 3) as usize],
            material: Material {
                ambient_color: Vector3d {
                    x: words[(p + 4) as usize],
                    y: words[(p + 5) as usize],
                    z: words[(p + 6) as usize],
                },
                diffuse_color: Vector3d {
                    x: words[(p + 7) as usize],
                    y: words[(p + 8) as usize],
                    z: words[(p + 9) as usize],
                },
                specular_color: Vector3d {
                    x: words[(p + 10) as usize],
                    y: words[(p + 11) as usize],
                    z: words[(p + 12) as usize],
                },
                shininess: shin_w as u32,
                reflection_color: Vector3d {
                    x: words[(p + 14) as usize],
                    y: words[(p + 15) as usize],
                    z: words[(p + 16) as usize],
                },
                transmission_color: Vector3d {
                    x: words[(p + 17) as usize],
                    y: words[(p + 18) as usize],
                    z: words[(p + 19) as usize],
                },
            },
        };
        let ghost prev = objects@;
        objects.push(sphere);
        proof {
            assert(sphere == parse_sphere_s(words@, p as int));
            assert(sphere_block_ok_s(words@, 1, si as int));
            assert(objects@ =~= prev + seq![parse_sphere_s(words@, p as int)]);
            assert(prev + (seq![parse_sphere_s(words@, p as int)] + parse_spheres_s(
                words@,
                p as int + 20,
                (n - si - 1) as nat,
            )) =~= (prev + seq![parse_sphere_s(words@, p as int)]) + parse_spheres_s(
                words@,
                1 + 20 * ((si as int) + 1),
                (n - si - 1) as nat,
            ));
        }
        si = si + 1;
    }
    proof {
        assert(objects@ + parse_spheres_s(words@, 1 + 20 * (n as int), 0) =~= objects@);
    }
    Some(objects)
}

/// Parse `m` light blocks starting at word `base`, mirroring
/// `parse_lights_s`.
fn decode_lights(words: &Vec<i64>, base: u64, m: u64) -> (r: Vec<Light>)
    requires
        m <= u32::MAX,
        0 <= base as int,
        base as int + 12 * (m as int) <= words@.len(),
    ensures
        r@ == parse_lights_s(words@, base as int, m as nat),
{
    let total: usize = words.len();
    let mut lights: Vec<Light> = Vec::new();
    let mut li: u64 = 0;
    while li < m
        invariant
            m <= u32::MAX,
            total == words@.len(),
            base as int + 12 * (m as int) <= words@.len(),
            0 <= li <= m,
            lights@.len() == li as int,
            parse_lights_s(words@, base as int, m as nat) == lights@ + parse_lights_s(
                words@,
                base as int + 12 * (li as int),
                (m - li) as nat,
            ),
        decreases m - li,
    {
        proof {
            assert(base as int + 12 * (li as int) + 12 <= total as int);
        }
        let p: u64 = base + 12 * li;
        let light = Light {
            position: Vector3d {
                x: words[p as usize],
                y: words[(p + 1) as usize],
                z: words[(p + 2) as usize],
            },
            ambient_color: Vector3d {
                x: words[(p + 3) as usize],
                y: words[(p + 4) as usize],
                z: words[(p + 5) as usize],
            },
            diffuse_color: Vector3d {
                x: words[(p + 6) as usize],
                y: words[(p + 7) as usize],
                z: words[(p + 8) as usize],
            },
            specular_color: Vector3d {
                x: words[(p + 9) as usize],
                y: words[(p + 10) as usize],
                z: words[(p + 11) as usize],
            },
        };
        let ghost prev = lights@;
        lights.push(light);
        proof {
            assert(light == parse_light_s(words@, p as int));
            assert(lights@ =~= prev + seq![parse_light_s(words@, p as int)]);
            assert(prev + (seq![parse_light_s(words@, p as int)] + parse_lights_s(
                words@,
                p as int + 12,
                (m - li - 1) as nat,
            )) =~= (prev + seq![parse_light_s(words@, p as int)]) + parse_lights_s(
                words@,
                base as int + 12 * ((li as int) + 1),
                (m - li - 1) as nat,
            ));
        }
        li = li + 1;
    }
    proof {
        assert(lights@ + parse_lights_s(words@, base as int + 12 * (m as int), 0) =~= lights@);
    }
    lights
}

/// Deserialize a scene record from bytes; `None` when the stream is not
/// a well-formed encoding.
#[verifier::rlimit(60)]
pub fn decode_scene(bytes: &Vec<u8>) -> (r: Option<Scene>)
    ensures
        match r {
            Some(sc) => decode_spec(bytes@) matches Some(p) && parts_match_s(p, sc),
            None => decode_spec(bytes@) is None,
        },
{
    let len: usize = bytes.len();
    if len % 8 != 0 {
        return None;
    }
    let nwords: usize = len / 8;
    let mut words: Vec<i64> = Vec::new();
    let mut i: usize = 0;
    proof {
        vstd::arithmetic::div_mod::lemma_fundamental_div_mod(len as int, 8);
    }
    while i < nwords
        invariant
            nwords == bytes@.len() / 8,
            bytes@.len() <= usize::MAX,
            8 * nwords <= bytes@.len(),
            0 <= i <= nwords,
            words@.len() == i as int,
            forall|j: int| 0 <= j < i ==> words@[j] == byte_word_s(bytes@, j),
        decreases nwords - i,
    {
        let w = read_word(bytes, i);
        words.push(w);
        i = i + 1;
    }
    proof {
        assert(words@ =~= bytes_words_s(bytes@));
    }
    let total: usize = words.len();
    if total < 1 {
        return None;
    }
    let w0: i64 = words[0];
    if w0 < 0 || w0 > 0xffff_ffff {
        return None;
    }
    let n: u64 = w0 as u64;
    let total64: u64 = total as u64;
    if total64 < 2 + 20 * n {
        return None;
    }
    let mpos: u64 = 1 + 20 * n;
    let wm: i64 = words[mpos as usize];
    if wm < 0 || wm > 0xffff_ffff {
        return None;
    }
    let m: u64 = wm as u64;
    if total64 < 12 * m || total64 - 12 * m != 2 + 20 * n + 13 {
        return None;
    }
    let tail: u64 = 2 + 20 * n + 12 * m;
    let objects = match decode_spheres(&words, n) {
        Some(v) => v,
        None => {
            return None;
        },
    };
    let lights = decode_lights(&words, 2 + 20 * n, m);
    let tw: i64 = words[tail as usize];
    let th: i64 = words[(tail + 1) as usize];
    let td: i64 = words[(tail + 2) as usize];
    let tf: i64 = words[(tail + 3) as usize];
    if tw < 0 || tw > 0xffff_ffff || th < 0 || th > 0xffff_ffff || td < 0 || td > 0xffff_ffff
        || tf < 0 || tf > 0xff {
        return None;
    }
    let scene = Scene {
        objects,
        lights,
        width: tw as u32,
        height: th as u32,
        depth: td as u32,
        fov: tf as u8,
        look_from: Vector3d {
            x: words[(tail + 4) as usize],
            y: words[(tail + 5) as usize],
            z: words[(tail + 6) as usize],
        },
        look_at: Vector3d {
            x: words[(tail + 7) as usize],
            y: words[(tail + 8) as usize],
            z: words[(tail + 9) as usize],
        },
        up: Vector3d {
            x: words[(tail + 10) as usize],
            y: words[(tail + 11) as usize],
            z: words[(tail + 12) as usize],
        },
    };
    proof {
        assert(words_ok_s(words@));
        assert(parts_match_s(parse_scene_s(words@), scene));
    }
    Some(scene)
}

} // verus!
