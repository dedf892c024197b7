//! Scattering behavior of the three material kinds. The stochastic draws a
//! scatter consumes are explicit arguments of `scatter_from`, whose contract
//! pins the result down exactly for every draw; `scatter` performs the draws
//! and keeps only what holds of every outcome.
use vstd::prelude::*;
use crate::fixed::{Fx, SCALE, sat, tdiv, mul_bits, div_bits, sqrt_bits, is_sqrt,
    lemma_tdiv_mul_cancel, lemma_tdiv_nonneg, lemma_sqrt_nat_is};
use crate::vector::{Vec3, V3, v3_wf, v3_bounded, v3_in_unit, v3_add, v3_neg, v3_scale, v3_dot, v3_len,
    v3_len_sq, v3_reflect, v3_refract, v3_unit, dot, dot_num, reflect, refract, unit_vector,
    random_unit_vector, random_in_unit_sphere, random_unit_interval};
use crate::ray::{Ray, RayV};
use crate::hittable::{HitRecord, HitV, hit_wf};

verus! {

/// Mathematical image of a material.
pub enum MatV {
    Lambertian { albedo: V3 },
    Metal { albedo: V3, fuzz: int },
    Dielectric { ior: int },
}

/// The closed set of material kinds, each carrying its parameters inline.
#[derive(Clone, Copy, Debug)]
pub enum Material {
    Lambertian { albedo: Vec3 },
    Metal { albedo: Vec3, fuzz: Fx },
    Dielectric { ior: Fx },
}

impl View for Material {
    type V = MatV;

    open spec fn view(&self) -> MatV {
        match *self {
            Material::Lambertian { albedo } => MatV::Lambertian { albedo: albedo@ },
            Material::Metal { albedo, fuzz } => MatV::Metal { albedo: albedo@, fuzz: fuzz@ },
            Material::Dielectric { ior } => MatV::Dielectric { ior: ior@ },
        }
    }
}

/// Pure white: the attenuation of a dielectric, which absorbs nothing.
pub open spec fn v3_white() -> V3 {
    V3 { x: SCALE as int, y: SCALE as int, z: SCALE as int }
}

/// Diffuse scattering: the unit draw tilts the normal; a degenerate
/// (all-zero) sum falls back to the normal itself. Always scatters, and the
/// attenuation is exactly the albedo.
pub open spec fn lambertian_scatter(albedo: V3, hit: HitV, rand_unit: V3) -> (V3, RayV) {
    let d = v3_add(hit.normal, rand_unit);
    let dir = if d.x == 0 && d.y == 0 && d.z == 0 {
        hit.normal
    } else {
        d
    };
    (albedo, RayV { origin: hit.point, direction: dir })
}

/// Mirror scattering: the normalized incoming direction reflected about the
/// normal, perturbed by `fuzz` times the ball draw; absorbed when the
/// reflection does not point away from the surface.
pub open spec fn metal_scatter(albedo: V3, fuzz: int, r_in: RayV, hit: HitV, rand_ball: V3)
    -> Option<(V3, RayV)> {
    let reflected = v3_reflect(v3_unit(r_in.direction), hit.normal);
    let scattered = RayV {
        origin: hit.point,
        direction: v3_add(reflected, v3_scale(rand_ball, fuzz)),
    };
    if v3_dot(reflected, hit.normal) > 0 {
        Some((albedo, scattered))
    } else {
        None
    }
}

/// The fifth power, rounded as the four successive products compute it.
pub open spec fn pow5_bits(x: int) -> int {
    let x2 = mul_bits(x, x);
    let x4 = mul_bits(x2, x2);
    mul_bits(x4, x)
}

/// Schlick's closed-form approximation of the angle-dependent reflectance.
pub open spec fn reflectance_bits(cosine: int, ref_idx: int) -> int {
    let r0a = div_bits(sat(SCALE as int - ref_idx), sat(SCALE as int + ref_idx));
    let r0 = mul_bits(r0a, r0a);
    sat(r0 + mul_bits(sat(SCALE as int - r0), pow5_bits(sat(SCALE as int - cosine))))
}

/// Dielectric scattering: refract by Snell's law unless total internal
/// reflection applies or the Schlick reflectance exceeds the uniform draw,
/// in which case reflect. Always scatters; attenuation is pure white.
pub open spec fn dielectric_scatter(ior: int, r_in: RayV, hit: HitV, rand01: int) -> (V3, RayV) {
    let unit_direction = v3_unit(r_in.direction);
    let d = v3_dot(v3_neg(unit_direction), hit.normal);
    let cos_theta = if d <= SCALE as int {
        d
    } else {
        SCALE as int
    };
    let sin_theta = sqrt_bits(sat(SCALE as int - mul_bits(cos_theta, cos_theta)));
    let ratio = if hit.front_face {
        div_bits(SCALE as int, ior)
    } else {
        ior
    };
    if mul_bits(ratio, sin_theta) > SCALE as int || reflectance_bits(cos_theta, ratio) > rand01 {
        (v3_white(), RayV { origin: hit.point, direction: v3_reflect(unit_direction, hit.normal) })
    } else {
        (v3_white(), RayV { origin: hit.point, direction: v3_refract(unit_direction, hit.normal, ratio) })
    }
}

/// The attenuation any scatter of the material applies: its albedo, or pure
/// white for a dielectric. Independent of the draws.
pub open spec fn mat_albedo(m: MatV) -> V3 {
    match m {
        MatV::Lambertian { albedo } => albedo,
        MatV::Metal { albedo, fuzz } => albedo,
        MatV::Dielectric { ior } => v3_white(),
    }
}

/// Every albedo of the table lies in the unit color cube, so scattering can
/// only attenuate.
pub open spec fn albedos_in_unit(mats: Seq<MatV>) -> bool {
    forall|i: int| 0 <= i < mats.len() ==> v3_in_unit(mat_albedo(#[trigger] mats[i]))
}

/// What any material does with the given draws: the deterministic core of
/// scattering.
pub open spec fn scatter_spec(m: MatV, r_in: RayV, hit: HitV, rand_unit: V3, rand_ball: V3,
    rand01: int) -> Option<(V3, RayV)> {
    match m {
        MatV::Lambertian { albedo } => Some(lambertian_scatter(albedo, hit, rand_unit)),
        MatV::Metal { albedo, fuzz } => metal_scatter(albedo, fuzz, r_in, hit, rand_ball),
        MatV::Dielectric { ior } => Some(dielectric_scatter(ior, r_in, hit, rand01)),
    }
}

/// A stored normal that is exactly unit length in fixed-point: each
/// component fits in one unit and the squares sum to exactly one.
pub open spec fn exact_unit(n: V3) -> bool {
    &&& v3_bounded(n, SCALE as int)
    &&& dot_num(n, n) == SCALE as int * SCALE as int
}

/// Shared unit-vector facts for the head-on laws: a direction that is the
/// exact negation of an exact unit normal normalizes to itself, and its dot
/// with the normal is exactly minus one.
proof fn lemma_neg_unit_facts(n: V3)
    requires
        exact_unit(n),
    ensures
        v3_neg(n) == (V3 { x: -n.x, y: -n.y, z: -n.z }),
        v3_unit(v3_neg(n)) == v3_neg(n),
        v3_dot(v3_neg(n), n) == -(SCALE as int),
        v3_dot(n, n) == SCALE as int,
{
    let s = SCALE as int;
    let v = v3_neg(n);
    assert(v == (V3 { x: -n.x, y: -n.y, z: -n.z }));
    assert((-n.x) * (-n.x) == n.x * n.x) by (nonlinear_arith);
    assert((-n.y) * (-n.y) == n.y * n.y) by (nonlinear_arith);
    assert((-n.z) * (-n.z) == n.z * n.z) by (nonlinear_arith);
    assert(dot_num(v, v) == s * s);
    assert(65536int * 65536int == 4294967296int) by (nonlinear_arith);
    lemma_tdiv_mul_cancel(65536);
    assert(v3_len_sq(v) == s);
    assert(is_sqrt((65536int * 65536int) as nat, 65536nat)) by (nonlinear_arith);
    lemma_sqrt_nat_is((65536int * 65536int) as nat, 65536nat);
    assert(v3_len(v) == s);
    lemma_tdiv_mul_cancel(v.x);
    lemma_tdiv_mul_cancel(v.y);
    lemma_tdiv_mul_cancel(v.z);
    assert(v.x * 65536 == 65536 * v.x && v.y * 65536 == 65536 * v.y
        && v.z * 65536 == 65536 * v.z);
    assert(v3_unit(v) == v);
    assert((-n.x) * n.x == -(n.x * n.x)) by (nonlinear_arith);
    assert((-n.y) * n.y == -(n.y * n.y)) by (nonlinear_arith);
    assert((-n.z) * n.z == -(n.z * n.z)) by (nonlinear_arith);
    assert(dot_num(v, n) == -(s * s));
    assert(-(s * s) == 65536 * (-65536));
    lemma_tdiv_mul_cancel(-65536);
    assert(v3_dot(v, n) == -s);
    assert(dot_num(n, n) == 65536 * 65536);
    assert(v3_dot(n, n) == s);
}

/// A fuzzless metal hit exactly head-on mirrors the ray: whatever the ball
/// draw, the scattered direction is exactly the stored normal — the exact
/// reflection of the incoming direction — and the attenuation the albedo.
pub proof fn lemma_metal_mirror(albedo: V3, r_in: RayV, hit: HitV, rand_ball: V3)
    requires
        exact_unit(hit.normal),
        r_in.direction == v3_neg(hit.normal),
    ensures
        metal_scatter(albedo, 0, r_in, hit, rand_ball) == Some((albedo, RayV {
            origin: hit.point,
            direction: hit.normal,
        })),
        hit.normal == v3_neg(v3_unit(r_in.direction)),
{
    let s = SCALE as int;
    let n = hit.normal;
    let v = v3_neg(n);
    lemma_neg_unit_facts(n);
    assert(v3_unit(r_in.direction) == v);
    let k = mul_bits(2 * s, v3_dot(v, n));
    assert(131072int * (-65536int) == 65536int * (-131072int)) by (nonlinear_arith);
    lemma_tdiv_mul_cancel(-131072);
    assert(k == -131072);
    assert(n.x * (-131072) == 65536 * (-2 * n.x));
    assert(n.y * (-131072) == 65536 * (-2 * n.y));
    assert(n.z * (-131072) == 65536 * (-2 * n.z));
    lemma_tdiv_mul_cancel(-2 * n.x);
    lemma_tdiv_mul_cancel(-2 * n.y);
    lemma_tdiv_mul_cancel(-2 * n.z);
    let scaled = v3_scale(n, k);
    assert(scaled == (V3 { x: -2 * n.x, y: -2 * n.y, z: -2 * n.z }));
    let reflected = v3_reflect(v, n);
    assert(reflected == n);
    assert(rand_ball.x * 0 == 0) by (nonlinear_arith);
    assert(rand_ball.y * 0 == 0) by (nonlinear_arith);
    assert(rand_ball.z * 0 == 0) by (nonlinear_arith);
    lemma_tdiv_nonneg(0, 65536);
    assert(v3_scale(rand_ball, 0) == (V3 { x: 0, y: 0, z: 0 }));
    assert(v3_add(reflected, v3_scale(rand_ball, 0)) == n);
}

/// A dielectric whose index matches the surrounding medium, hit exactly
/// head-on, passes the ray straight through: no bending and no internal
/// reflection, for every uniform draw, on either face.
pub proof fn lemma_dielectric_straight(r_in: RayV, hit: HitV, rand01: int)
    requires
        exact_unit(hit.normal),
        r_in.direction == v3_neg(hit.normal),
        0 <= rand01,
    ensures
        dielectric_scatter(SCALE as int, r_in, hit, rand01) == (v3_white(), RayV {
            origin: hit.point,
            direction: v3_neg(hit.normal),
        }),
{
    let s = SCALE as int;
    let n = hit.normal;
    let v = v3_neg(n);
    lemma_neg_unit_facts(n);
    assert(v3_unit(r_in.direction) == v);
    assert(v3_neg(v) == n);
    let cos_theta = v3_dot(v3_neg(v), n);
    assert(cos_theta == s);
    assert(65536int * 65536int == 4294967296int) by (nonlinear_arith);
    lemma_tdiv_mul_cancel(65536);
    assert(mul_bits(s, s) == s);
    assert(sqrt_bits(sat(s - mul_bits(s, s))) == 0);
    assert(div_bits(s, s) == s);
    assert(s * 0 == 0) by (nonlinear_arith);
    lemma_tdiv_nonneg(0, 65536);
    assert(mul_bits(s, 0) == 0);
    assert(0int * 65536int == 0) by (nonlinear_arith);
    assert(tdiv(0, 131072) == 0);
    assert(div_bits(sat(s - s), sat(s + s)) == 0);
    assert(0int * 0int == 0) by (nonlinear_arith);
    assert(mul_bits(0, 0) == 0);
    assert(pow5_bits(sat(s - s)) == 0);
    assert(reflectance_bits(s, s) == 0);
    assert(!(mul_bits(s, 0) > s || reflectance_bits(s, s) > rand01));
    assert(n.x * 65536 == 65536 * n.x);
    assert(n.y * 65536 == 65536 * n.y);
    assert(n.z * 65536 == 65536 * n.z);
    lemma_tdiv_mul_cancel(n.x);
    lemma_tdiv_mul_cancel(n.y);
    lemma_tdiv_mul_cancel(n.z);
    assert(v3_scale(n, s) == n);
    assert(v3_add(v, v3_scale(n, s)) == (V3 { x: 0, y: 0, z: 0 }));
    assert(v3_scale(V3 { x: 0, y: 0, z: 0 }, s) == (V3 { x: 0, y: 0, z: 0 }));
    let perp = v3_scale(v3_add(v, v3_scale(n, cos_theta)), s);
    assert(perp == (V3 { x: 0, y: 0, z: 0 }));
    assert(dot_num(perp, perp) == 0);
    assert(v3_len_sq(perp) == 0);
    assert(is_sqrt((65536int * 65536int) as nat, 65536nat)) by (nonlinear_arith);
    lemma_sqrt_nat_is((65536int * 65536int) as nat, 65536nat);
    assert(sqrt_bits(sat(crate::fixed::absv(sat(s - v3_len_sq(perp))))) == s);
    assert(n.x * (-65536) == 65536 * (-n.x));
    assert(n.y * (-65536) == 65536 * (-n.y));
    assert(n.z * (-65536) == 65536 * (-n.z));
    lemma_tdiv_mul_cancel(-n.x);
    lemma_tdiv_mul_cancel(-n.y);
    lemma_tdiv_mul_cancel(-n.z);
    assert(v3_scale(n, sat(-s)) == v);
    assert(v3_add(perp, v) == v);
    assert(v3_refract(v, n, s) == v);
}

/// The image of a scatter result.
pub open spec fn opt_pair_view(o: Option<(Vec3, Ray)>) -> Option<(V3, RayV)> {
    match o {
        Some(p) => Some((p.0@, p.1@)),
        None => None,
    }
}

/// Schlick's reflectance approximation, exactly as `reflectance_bits` states.
pub fn reflectance(cosine: Fx, ref_idx: Fx) -> (r: Fx)
    ensures
        r@ == reflectance_bits(cosine@, ref_idx@),
        r.wf(),
{
    let one = Fx::one();
    let r0a = one.sub(ref_idx).div(one.add(ref_idx));
    let r0 = r0a.mul(r0a);
    let p = one.sub(cosine);
    let p2 = p.mul(p);
    let p4 = p2.mul(p2);
    let p5 = p4.mul(p);
    r0.add(one.sub(r0).mul(p5))
}

/// Well-formedness of a material image: its parameters are in range.
pub open spec fn mat_wf(m: MatV) -> bool {
    match m {
        MatV::Lambertian { albedo } => v3_wf(albedo),
        MatV::Metal { albedo, fuzz } => v3_wf(albedo) && crate::fixed::absv(fuzz)
            <= crate::fixed::LIM as int,
        MatV::Dielectric { ior } => crate::fixed::absv(ior) <= crate::fixed::LIM as int,
    }
}

impl Material {
    pub open spec fn wf(self) -> bool {
        mat_wf(self@)
    }

    /// Scattering with the stochastic draws passed in: verified exactly for
    /// every draw, against `scatter_spec`.
    pub fn scatter_from(&self, r_in: &Ray, hit: &HitRecord, rand_unit: &Vec3, rand_ball: &Vec3,
        rand01: Fx) -> (res: Option<(Vec3, Ray)>)
        requires
            self.wf(),
            r_in.wf(),
            hit.wf(),
            rand_unit.wf(),
            rand_ball.wf(),
        ensures
            opt_pair_view(res) == scatter_spec(self@, r_in@, hit@, rand_unit@, rand_ball@,
                rand01@),
            res is Some ==> res->Some_0.1.wf(),
    {
        match *self {
            Material::Lambertian { albedo } => {
                let mut scattered_direction = hit.normal.add(*rand_unit);
                if scattered_direction.near_zero() {
                    scattered_direction = hit.normal;
                }
                let scattered = Ray { origin: hit.point, direction: scattered_direction };
                Some((albedo, scattered))
            },
            Material::Metal { albedo, fuzz } => {
                let reflected = reflect(&unit_vector(&r_in.direction), &hit.normal);
                let scattered = Ray {
                    origin: hit.point,
                    direction: reflected.add(rand_ball.scale(fuzz)),
                };
                if dot(&reflected, &hit.normal).gt(Fx::zero()) {
                    Some((albedo, scattered))
                } else {
                    None
                }
            },
            Material::Dielectric { ior } => {
                let one = Fx::one();
                let unit_direction = unit_vector(&r_in.direction);
                let cos_theta = dot(&unit_direction.neg(), &hit.normal).min(one);
                let sin_theta = one.sub(cos_theta.mul(cos_theta)).sqrt();
                let refraction_ratio = if hit.front_face {
                    one.div(ior)
                } else {
                    ior
                };
                let white = Vec3::new(one, one, one);
                if refraction_ratio.mul(sin_theta).gt(one)
                    || reflectance(cos_theta, refraction_ratio).gt(rand01) {
                    let reflected = reflect(&unit_direction, &hit.normal);
                    Some((white, Ray { origin: hit.point, direction: reflected }))
                } else {
                    let refracted = refract(&unit_direction, &hit.normal, refraction_ratio);
                    Some((white, Ray { origin: hit.point, direction: refracted }))
                }
            },
        }
    }

    /// Scattering with fresh draws. Whatever the generator yields, the result
    /// agrees with `scatter_spec` for some in-range draws; a diffuse or
    /// refractive material always scatters, with its stated attenuation, and
    /// every scattered ray starts at the hit point.
    pub fn scatter(&self, r_in: &Ray, hit: &HitRecord, rng: &mut rand::rngs::ThreadRng)
        -> (res: Option<(Vec3, Ray)>)
        requires
            self.wf(),
            r_in.wf(),
            hit.wf(),
        ensures
            exists|ru: V3, rb: V3, r01: int| #![auto]
                0 <= r01 < SCALE as int && opt_pair_view(res)
                    == scatter_spec(self@, r_in@, hit@, ru, rb, r01),
            self@ is Lambertian ==> res is Some,
            self@ is Dielectric ==> res is Some,
            res is Some ==> res->Some_0.0@ == mat_albedo(self@),
            res is Some ==> res->Some_0.1@.origin == hit@.point && res->Some_0.1.wf(),
    {
        let ru = random_unit_vector(rng);
        let rb = random_in_unit_sphere(rng);
        let r01 = random_unit_interval(rng);
        let res = self.scatter_from(r_in, hit, &ru, &rb, r01);
        proof {
            assert(0 <= r01@ < SCALE as int && opt_pair_view(res)
                == scatter_spec(self@, r_in@, hit@, ru@, rb@, r01@));
        }
        res
    }
}

} // verus!
