//! The integrator: recursive light transport written as a loop with an
//! accumulated attenuation product, per-pixel stochastic sampling, and the
//! scanline driver that turns pixel colors into PPM lines.
use vstd::prelude::*;
use crate::fixed::{Fx, SCALE, LIM, sat, mul_bits, div_bits, from_frac, lemma_mul_bits_one,
    lemma_mul_bits_unit_range};
use crate::vector::{Vec3, V3, v3_wf, v3_add, v3_scale, v3_dot, v3_reflect, v3_unit, v3_in_unit,
    unit_vector, random_unit_interval};
use crate::ray::{Ray, RayV};
use crate::hittable_list::{HittableList, ListV, list_hit};
use crate::camera::Camera;
use crate::color::{Color, color_line, write_color};
use crate::material::{MatV, v3_white, mat_albedo, albedos_in_unit};

verus! {

/// The sky's horizon-to-zenith endpoint color, half red, seven tenths green,
/// full blue.
pub open spec fn sky_blue_v() -> V3 {
    V3 { x: div_bits(1, 2), y: div_bits(7, 10), z: SCALE as int }
}

/// The background gradient: white blended toward sky blue by
/// `0.5 * (y + 1)` of the normalized direction — the scene's only light.
/// The blend factor is forced into `[0, 1]`, where normalization rounding
/// could push it a few units outside, so the gradient never leaves the unit
/// color cube.
pub open spec fn sky_color_v(dir: V3) -> V3 {
    let u = v3_unit(dir);
    let t0 = mul_bits(div_bits(1, 2), sat(u.y + SCALE as int));
    let t = if t0 < 0 {
        0
    } else if t0 > SCALE as int {
        SCALE as int
    } else {
        t0
    };
    v3_add(v3_scale(v3_white(), sat(SCALE as int - t)), v3_scale(sky_blue_v(), t))
}

/// The background color seen along a ray that escapes the scene.
pub fn sky(ray: &Ray) -> (res: Color)
    requires
        ray.wf(),
    ensures
        res@ == sky_color_v(ray@.direction),
        v3_in_unit(res@),
        res.wf(),
{
    let one = Fx::one();
    let direction = unit_vector(&ray.direction);
    let t = from_frac(1, 2).mul(direction.y.add(one)).clamp(Fx::zero(), one);
    let white = Vec3::new(one, one, one);
    let blue = Vec3::new(from_frac(1, 2), from_frac(7, 10), one);
    let res = white.scale(one.sub(t)).add(blue.scale(t));
    proof {
        lemma_mul_bits_one(sat(SCALE as int - t@));
        lemma_sky_blue_in_unit();
        lemma_mul_bits_unit_range(sky_blue_v().x, t@);
        lemma_mul_bits_unit_range(sky_blue_v().y, t@);
        lemma_mul_bits_unit_range(sky_blue_v().z, t@);
    }
    res
}

/// The sky endpoint color lies in the unit cube.
proof fn lemma_sky_blue_in_unit()
    ensures
        v3_in_unit(sky_blue_v()),
{
    crate::fixed::lemma_tdiv_nonneg(65536int, 2int);
    crate::fixed::lemma_tdiv_nonneg(7int * 65536int, 10int);
    vstd::arithmetic::div_mod::lemma_div_is_ordered(65536int, 131072int, 2int);
    vstd::arithmetic::div_mod::lemma_div_is_ordered(7int * 65536int, 10int * 65536int, 10int);
    vstd::arithmetic::div_mod::lemma_div_multiples_vanish(65536int, 2int);
    vstd::arithmetic::div_mod::lemma_div_multiples_vanish(65536int, 10int);
}

/// Whether the scene absorbs a ray at its very first hit: the hit material
/// is a metal whose reflection of the normalized incoming direction does
/// not point away from the surface. The scene and the ray determine this
/// alone; no stochastic draw is involved.
pub open spec fn absorbed_on_first_hit(w: ListV, r: RayV) -> bool {
    match list_hit(w.objects, r, div_bits(1, 1000), LIM as int) {
        Some(h) => 0 <= h.mat < w.materials.len() && match w.materials[h.mat] {
            MatV::Metal { albedo, fuzz } => v3_dot(v3_reflect(v3_unit(r.direction), h.normal),
                h.normal) <= 0,
            _ => false,
        },
        None => false,
    }
}

/// Traces a ray through the scene for at most `depth` bounces. An exhausted
/// budget yields black; a primary ray that misses every object yields the
/// sky gradient exactly; one absorbed at its first hit yields black; a
/// scattered bounce multiplies the accumulated attenuation component-wise.
/// When every albedo of the scene lies in the unit cube, so does the
/// result: attenuation only ever dims the sky.
pub fn ray_color(ray: &Ray, world: &HittableList, depth: i32,
    rng: &mut rand::rngs::ThreadRng) -> (res: Color)
    requires
        world.wf(),
        ray.wf(),
    ensures
        res.wf(),
        depth <= 0 ==> res@ == (V3 { x: 0int, y: 0int, z: 0int }),
        depth > 0 && list_hit(world@.objects, ray@, div_bits(1, 1000), LIM as int) is None
            ==> res@ == sky_color_v(ray@.direction),
        depth > 0 && absorbed_on_first_hit(world@, ray@)
            ==> res@ == (V3 { x: 0int, y: 0int, z: 0int }),
        albedos_in_unit(world@.materials) ==> v3_in_unit(res@),
{
    let t_min = from_frac(1, 1000);
    let t_max = Fx::from_bits(LIM);
    let one = Fx::one();
    let mut cur = *ray;
    let mut att = Vec3::new(one, one, one);
    let mut depth_left = depth;
    while depth_left > 0
        invariant
            world.wf(),
            ray.wf(),
            cur.wf(),
            att.wf(),
            t_min@ == div_bits(1, 1000),
            t_max@ == LIM as int,
            depth_left <= depth,
            depth_left == depth ==> cur@ == ray@ && att@ == v3_white(),
            depth_left < depth ==> list_hit(world@.objects, ray@, div_bits(1, 1000),
                LIM as int) is Some,
            depth_left < depth ==> !absorbed_on_first_hit(world@, ray@),
            albedos_in_unit(world@.materials) ==> v3_in_unit(att@),
        decreases depth_left,
    {
        match world.hit(&cur, t_min, t_max) {
            Some(rec) => {
                let m = world.materials[rec.mat];
                proof {
                    assert(world@.materials[rec.mat as int] == world.materials@[rec.mat as int]@);
                    assert(crate::material::mat_wf(m@));
                }
                match m.scatter(&cur, &rec, rng) {
                    Some(pair) => {
                        proof {
                            if depth_left == depth && absorbed_on_first_hit(world@, ray@) {
                                let (ru, rb, r01) = choose|ru: V3, rb: V3, r01: int|
                                    0 <= r01 < SCALE as int && crate::material::opt_pair_view(
                                        Some(pair)) == crate::material::scatter_spec(m@, cur@,
                                        rec@, ru, rb, r01);
                                assert(false);
                            }
                            if albedos_in_unit(world@.materials) {
                                assert(v3_in_unit(mat_albedo(world@.materials[rec.mat as int])));
                                lemma_mul_bits_unit_range(att@.x, pair.0@.x);
                                lemma_mul_bits_unit_range(att@.y, pair.0@.y);
                                lemma_mul_bits_unit_range(att@.z, pair.0@.z);
                            }
                        }
                        att = att.hadamard(pair.0);
                        cur = pair.1;
                        depth_left = depth_left - 1;
                    },
                    None => {
                        return Vec3::zero();
                    },
                }
            },
            None => {
                let skyc = sky(&cur);
                let res = att.hadamard(skyc);
                proof {
                    if depth_left == depth {
                        lemma_mul_bits_one(skyc@.x);
                        lemma_mul_bits_one(skyc@.y);
                        lemma_mul_bits_one(skyc@.z);
                    }
                    if albedos_in_unit(world@.materials) {
                        lemma_mul_bits_unit_range(att@.x, skyc@.x);
                        lemma_mul_bits_unit_range(att@.y, skyc@.y);
                        lemma_mul_bits_unit_range(att@.z, skyc@.z);
                    }
                }
                return res;
            },
        }
    }
    Vec3::zero()
}

/// The component-wise sum of a sequence of colors, starting from black.
pub open spec fn sum_v3(cs: Seq<V3>) -> V3
    decreases cs.len(),
{
    if cs.len() == 0 {
        V3 { x: 0, y: 0, z: 0 }
    } else {
        v3_add(sum_v3(cs.drop_last()), cs.last())
    }
}

/// Whether `c` is the sum of `n` well-formed per-sample colors.
pub open spec fn is_sample_sum(c: V3, n: int) -> bool {
    exists|cs: Seq<V3>| #![auto] cs.len() == n
        && (forall|k: int| 0 <= k < cs.len() ==> v3_wf(#[trigger] cs[k]))
        && c == sum_v3(cs)
}

/// The color of pixel `(i, j)`: the sum of `samples_per_pixel` traced
/// radiances along jittered camera rays; `write_color` divides by the
/// sample count when emitting. Whatever the generator yields, the result
/// is such a sum of well-formed per-sample colors; with no samples or no
/// bounce budget it is black, and unit-cube albedos bound every channel by
/// the sample count.
pub fn pixel_color(world: &HittableList, cam: &Camera, i: u16, j: u16, width: u16, height: u16,
    samples_per_pixel: u16, max_depth: i32, rng: &mut rand::rngs::ThreadRng) -> (res: Color)
    requires
        world.wf(),
        cam.wf(),
    ensures
        res.wf(),
        samples_per_pixel == 0 ==> res@ == (V3 { x: 0int, y: 0int, z: 0int }),
        max_depth <= 0 ==> res@ == (V3 { x: 0int, y: 0int, z: 0int }),
        is_sample_sum(res@, samples_per_pixel as int),
        albedos_in_unit(world@.materials) ==> 0 <= res@.x
            <= samples_per_pixel as int * SCALE as int && 0 <= res@.y
            <= samples_per_pixel as int * SCALE as int && 0 <= res@.z
            <= samples_per_pixel as int * SCALE as int,
{
    let one = Fx::one();
    let mut color = Vec3::zero();
    let mut s: u16 = 0;
    let ghost mut cs: Seq<V3> = Seq::empty();
    while s < samples_per_pixel
        invariant
            world.wf(),
            cam.wf(),
            color.wf(),
            s <= samples_per_pixel,
            cs.len() == s as int,
            color@ == sum_v3(cs),
            forall|k: int| 0 <= k < cs.len() ==> v3_wf(#[trigger] cs[k]),
            max_depth <= 0 ==> color@ == (V3 { x: 0int, y: 0int, z: 0int }),
            albedos_in_unit(world@.materials) ==> 0 <= color@.x <= s as int * SCALE as int
                && 0 <= color@.y <= s as int * SCALE as int && 0 <= color@.z
                <= s as int * SCALE as int,
        decreases samples_per_pixel - s,
    {
        let u = Fx::from_num(i as i64).add(random_unit_interval(rng)).div(
            Fx::from_num(width as i64).sub(Fx::one()));
        let v = Fx::from_num(j as i64).add(random_unit_interval(rng)).div(
            Fx::from_num(height as i64).sub(Fx::one()));
        let ray = cam.get_ray(u, v);
        let c = ray_color(&ray, world, max_depth, rng);
        color.add_assign(c);
        proof {
            let prev = cs;
            cs = cs.push(c@);
            assert(cs.drop_last() =~= prev);
            assert(cs.last() == c@);
        }
        s = s + 1;
    }
    color
}

/// One scanline of pixel colors, left to right: each entry is a
/// `pixel_color` sum of `samples_per_pixel` well-formed per-sample colors;
/// with no samples or no bounce budget every entry is black, and unit-cube
/// albedos bound every channel of every entry by the sample count.
pub fn render_scanline(world: &HittableList, cam: &Camera, j: u16, width: u16, height: u16,
    samples_per_pixel: u16, max_depth: i32, rng: &mut rand::rngs::ThreadRng) -> (row: Vec<Color>)
    requires
        world.wf(),
        cam.wf(),
    ensures
        row@.len() == width as int,
        forall|k: int| 0 <= k < row@.len() ==> (#[trigger] row@[k]).wf(),
        samples_per_pixel == 0 ==> forall|k: int| 0 <= k < row@.len()
            ==> (#[trigger] row@[k])@ == (V3 { x: 0int, y: 0int, z: 0int }),
        max_depth <= 0 ==> forall|k: int| 0 <= k < row@.len()
            ==> (#[trigger] row@[k])@ == (V3 { x: 0int, y: 0int, z: 0int }),
        forall|k: int| 0 <= k < row@.len()
            ==> is_sample_sum((#[trigger] row@[k])@, samples_per_pixel as int),
        albedos_in_unit(world@.materials) ==> forall|k: int| 0 <= k < row@.len()
            ==> 0 <= (#[trigger] row@[k])@.x <= samples_per_pixel as int * SCALE as int
                && 0 <= row@[k]@.y <= samples_per_pixel as int * SCALE as int
                && 0 <= row@[k]@.z <= samples_per_pixel as int * SCALE as int,
{
    let mut row: Vec<Color> = Vec::new();
    let mut i: u16 = 0;
    while i < width
        invariant
            world.wf(),
            cam.wf(),
            row@.len() == i as int,
            i <= width,
            forall|k: int| 0 <= k < row@.len() ==> (#[trigger] row@[k]).wf(),
            samples_per_pixel == 0 ==> forall|k: int| 0 <= k < row@.len()
                ==> (#[trigger] row@[k])@ == (V3 { x: 0int, y: 0int, z: 0int }),
            max_depth <= 0 ==> forall|k: int| 0 <= k < row@.len()
                ==> (#[trigger] row@[k])@ == (V3 { x: 0int, y: 0int, z: 0int }),
            forall|k: int| 0 <= k < row@.len()
                ==> is_sample_sum((#[trigger] row@[k])@, samples_per_pixel as int),
            albedos_in_unit(world@.materials) ==> forall|k: int| 0 <= k < row@.len()
                ==> 0 <= (#[trigger] row@[k])@.x <= samples_per_pixel as int * SCALE as int
                    && 0 <= row@[k]@.y <= samples_per_pixel as int * SCALE as int
                    && 0 <= row@[k]@.z <= samples_per_pixel as int * SCALE as int,
        decreases width - i,
    {
        let c = pixel_color(world, cam, i, j, width, height, samples_per_pixel, max_depth, rng);
        row.push(c);
        i = i + 1;
    }
    row
}

/// The PPM text of a row of pixels, one line per pixel in order.
pub open spec fn lines_of(cs: Seq<V3>, samples: int) -> Seq<u8>
    decreases cs.len(),
{
    if cs.len() == 0 {
        Seq::empty()
    } else {
        lines_of(cs.drop_last(), samples) + color_line(cs.last(), samples)
    }
}

/// Appends one PPM line for each color of the row, in order.
pub fn write_colors(out: &mut Vec<u8>, colors: &Vec<Color>, num_samples: u16)
    requires
        num_samples >= 1,
    ensures
        final(out)@ == old(out)@ + lines_of(colors@.map_values(|c: Color| c@),
            num_samples as int),
{
    let ghost cs = colors@.map_values(|c: Color| c@);
    let mut i: usize = 0;
    while i < colors.len()
        invariant
            0 <= i <= colors.len(),
            num_samples >= 1,
            cs == colors@.map_values(|c: Color| c@),
            out@ == old(out)@ + lines_of(cs.take(i as int), num_samples as int),
        decreases colors.len() - i,
    {
        write_color(out, &colors[i], num_samples);
        proof {
            assert(cs.take(i + 1).drop_last() =~= cs.take(i as int));
            assert(cs.take(i + 1).last() == cs[i as int]);
            assert(out@ =~= old(out)@ + lines_of(cs.take(i + 1), num_samples as int));
        }
        i = i + 1;
    }
    proof {
        assert(cs.take(colors@.len() as int) =~= cs);
    }
}

} // verus!
