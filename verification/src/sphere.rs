//! The one geometric primitive: a sphere, intersected by solving the
//! quadratic `|O + tD - C|^2 = r^2` with the half-b reduction.
use vstd::prelude::*;
use crate::fixed::{Fx, SCALE, LIM, sat, tdiv, mul_bits, div_bits, sqrt_bits, is_sqrt, sqrt_nat,
    lemma_div_bits_mono, lemma_tdiv_mul_cancel, lemma_tdiv_nonneg, lemma_mul_bits_one,
    lemma_sqrt_nat_is, lemma_sqrt_exists, absv};
use crate::vector::{Vec3, V3, v3_wf, v3_bounded, v3_sub, v3_divs, v3_neg, v3_dot, v3_len_sq,
    dot, dot_num, lemma_len_sq_nonneg};
use crate::ray::{Ray, RayV, ray_at};
use crate::hittable::{HitRecord, HitV, hit_wf};

verus! {

/// Mathematical image of a sphere; `mat` is the index of its material in
/// the scene's table.
pub struct SphereV {
    pub center: V3,
    pub radius: int,
    pub mat: int,
}

pub open spec fn sphere_wf(s: SphereV) -> bool {
    &&& v3_wf(s.center)
    &&& -(LIM as int) <= s.radius <= LIM as int
}

#[derive(Clone, Copy, Debug)]
pub struct Sphere {
    pub center: Vec3,
    pub radius: Fx,
    pub mat: usize,
}

impl View for Sphere {
    type V = SphereV;

    open spec fn view(&self) -> SphereV {
        SphereV { center: self.center@, radius: self.radius@, mat: self.mat as int }
    }
}

/// The accepted intersection parameter, if any: the smaller quadratic root
/// when it lies in `[t_min, t_max]`, else the larger when that one does —
/// the order that also handles a ray origin inside the sphere.
pub open spec fn sphere_hit_t(s: SphereV, r: RayV, t_min: int, t_max: int) -> Option<int> {
    let oc = v3_sub(r.origin, s.center);
    let a = v3_len_sq(r.direction);
    let half_b = v3_dot(oc, r.direction);
    let c = sat(v3_len_sq(oc) - mul_bits(s.radius, s.radius));
    let disc = sat(mul_bits(half_b, half_b) - mul_bits(a, c));
    if disc < 0 {
        None
    } else {
        let sqrtd = sqrt_bits(disc);
        let root1 = div_bits(sat(sat(-half_b) - sqrtd), a);
        if t_min <= root1 && root1 <= t_max {
            Some(root1)
        } else {
            let root2 = div_bits(sat(sat(-half_b) + sqrtd), a);
            if t_min <= root2 && root2 <= t_max {
                Some(root2)
            } else {
                None
            }
        }
    }
}

/// The record reported for a hit at parameter `t`: the reached point, the
/// outward normal rescaled to unit length and oriented against the ray, and
/// the sphere's material.
pub open spec fn sphere_hit_rec(s: SphereV, r: RayV, t: int) -> HitV {
    let point = ray_at(r, t);
    let outward = v3_divs(v3_sub(point, s.center), s.radius);
    let front = v3_dot(r.direction, outward) < 0;
    HitV {
        point,
        normal: if front { outward } else { v3_neg(outward) },
        mat: s.mat,
        t,
        front_face: front,
    }
}

/// The full intersection query against one sphere.
pub open spec fn sphere_hit(s: SphereV, r: RayV, t_min: int, t_max: int) -> Option<HitV> {
    match sphere_hit_t(s, r, t_min, t_max) {
        Some(t) => Some(sphere_hit_rec(s, r, t)),
        None => None,
    }
}

/// Shrinking the far end of the interval from `t_max` to `c` never changes
/// which hit is in reach: a hit with parameter within the smaller interval is
/// reported unchanged, one beyond it disappears, and a miss stays a miss.
/// This is what lets the scene scan keep only the closest hit so far.
pub proof fn lemma_sphere_hit_cap(s: SphereV, r: RayV, t_min: int, c: int, t_max: int)
    requires
        c <= t_max,
    ensures
        sphere_hit(s, r, t_min, c) is Some
            ==> sphere_hit(s, r, t_min, c) == sphere_hit(s, r, t_min, t_max),
        sphere_hit(s, r, t_min, t_max) is Some
            && sphere_hit(s, r, t_min, t_max)->Some_0.t <= c
            ==> sphere_hit(s, r, t_min, c) == sphere_hit(s, r, t_min, t_max),
        sphere_hit(s, r, t_min, t_max) is Some
            && sphere_hit(s, r, t_min, t_max)->Some_0.t > c
            ==> sphere_hit(s, r, t_min, c) is None,
        sphere_hit(s, r, t_min, t_max) is None ==> sphere_hit(s, r, t_min, c) is None,
{
    let oc = v3_sub(r.origin, s.center);
    let a = v3_len_sq(r.direction);
    let half_b = v3_dot(oc, r.direction);
    let cc = sat(v3_len_sq(oc) - mul_bits(s.radius, s.radius));
    let disc = sat(mul_bits(half_b, half_b) - mul_bits(a, cc));
    if disc >= 0 {
        let sqrtd = sqrt_bits(disc);
        assert(sqrtd >= 0);
        let n1 = sat(sat(-half_b) - sqrtd);
        let n2 = sat(sat(-half_b) + sqrtd);
        lemma_len_sq_nonneg(r.direction);
        lemma_div_bits_mono(n1, n2, a);
    }
}

/// A ray that starts on the sphere's surface and points radially outward
/// reports no intersection for any positive `t_min`: the near root lies
/// behind the origin and the far root exactly at it.
pub proof fn lemma_sphere_surface_outward_miss(center: V3, rad: int, mat: int, t_min: int,
    t_max: int)
    requires
        v3_bounded(center, 0x1_0000_0000_0000),
        0 < rad <= 0x1_0000_0000,
        t_min > 0,
    ensures
        sphere_hit(
            SphereV { center, radius: rad, mat },
            RayV {
                origin: V3 { x: center.x, y: center.y, z: center.z + rad },
                direction: V3 { x: 0, y: 0, z: SCALE as int },
            },
            t_min,
            t_max,
        ) is None,
{
    let s = SCALE as int;
    let sp = SphereV { center, radius: rad, mat };
    let r = RayV {
        origin: V3 { x: center.x, y: center.y, z: center.z + rad },
        direction: V3 { x: 0, y: 0, z: s },
    };
    let oc = v3_sub(r.origin, sp.center);
    assert(oc == (V3 { x: 0, y: 0, z: rad }));
    assert(0int * 0int == 0) by (nonlinear_arith);
    assert(65536int * 65536int == 4294967296int) by (nonlinear_arith);
    assert(dot_num(r.direction, r.direction) == 4294967296int);
    lemma_tdiv_mul_cancel(65536);
    let a = v3_len_sq(r.direction);
    assert(a == s);
    assert(dot_num(oc, r.direction) == rad * 65536);
    lemma_tdiv_mul_cancel(rad);
    let half_b = v3_dot(oc, r.direction);
    assert(half_b == rad);
    assert(rad * rad >= 0 && rad * rad <= 0x1_0000_0000_0000_0000int) by (nonlinear_arith)
        requires
            0 < rad <= 0x1_0000_0000,
    ;
    lemma_tdiv_nonneg(rad * rad, 65536);
    vstd::arithmetic::div_mod::lemma_div_is_ordered(rad * rad, 0x1_0000_0000_0000_0000int,
        65536);
    assert(0x1_0000_0000_0000_0000int / 65536int == 0x1_0000_0000_0000int)
        by (nonlinear_arith);
    let w0 = tdiv(rad * rad, s);
    assert(0 <= w0 <= 0x1_0000_0000_0000int);
    assert(dot_num(oc, oc) == rad * rad);
    assert(v3_len_sq(oc) == w0);
    assert(mul_bits(sp.radius, sp.radius) == w0);
    let cc = sat(v3_len_sq(oc) - mul_bits(sp.radius, sp.radius));
    assert(cc == 0);
    assert(mul_bits(half_b, half_b) == w0);
    assert(65536int * 0int == 0) by (nonlinear_arith);
    lemma_tdiv_nonneg(0, 65536);
    assert(mul_bits(a, cc) == 0);
    let disc = sat(mul_bits(half_b, half_b) - mul_bits(a, cc));
    assert(disc == w0);
    let sqrtd = sqrt_bits(disc);
    if w0 > 0 {
        lemma_sqrt_exists((w0 * 65536) as nat);
        let u = sqrt_nat((w0 * 65536) as nat);
        vstd::arithmetic::div_mod::lemma_fundamental_div_mod(rad * rad, 65536);
        assert(w0 * 65536 <= rad * rad);
        assert(u as int <= rad) by (nonlinear_arith)
            requires
                u * u <= w0 * 65536,
                w0 * 65536 <= rad * rad,
                rad > 0,
        ;
        assert(0 <= sqrtd <= rad);
    } else {
        assert(sqrtd == 0);
    }
    let n1 = sat(sat(-half_b) - sqrtd);
    let n2 = sat(sat(-half_b) + sqrtd);
    assert(n1 == -rad - sqrtd && n2 == -rad + sqrtd);
    lemma_tdiv_mul_cancel(n1);
    lemma_tdiv_mul_cancel(n2);
    assert(n1 * 65536 == 65536 * n1 && n2 * 65536 == 65536 * n2);
    assert(div_bits(n1, a) == n1 && div_bits(n2, a) == n2);
    assert(n1 < t_min && n2 < t_min);
}

/// A ray fired from distance `d` straight at the center of a sphere of
/// radius `rad`, from outside, hits at parameter exactly `d - rad`, and the
/// reported normal is exactly the unit vector pointing back along the ray.
/// Unit counts that are multiples of 256 keep every square exactly
/// representable, so no rounding intervenes.
pub proof fn lemma_sphere_axis_hit(center: V3, rad: int, d: int, mat: int, t_min: int,
    t_max: int)
    requires
        v3_bounded(center, 0x1_0000_0000_0000),
        0 < rad < d <= 0x1_0000_0000,
        rad % 256 == 0,
        d % 256 == 0,
        t_min <= d - rad <= t_max,
    ensures
        sphere_hit(
            SphereV { center, radius: rad, mat },
            RayV {
                origin: V3 { x: center.x, y: center.y, z: center.z + d },
                direction: V3 { x: 0, y: 0, z: -(SCALE as int) },
            },
            t_min,
            t_max,
        ) == Some(HitV {
            point: V3 { x: center.x, y: center.y, z: center.z + rad },
            normal: V3 { x: 0, y: 0, z: SCALE as int },
            mat,
            t: d - rad,
            front_face: true,
        }),
{
    let s = SCALE as int;
    let sp = SphereV { center, radius: rad, mat };
    let r = RayV {
        origin: V3 { x: center.x, y: center.y, z: center.z + d },
        direction: V3 { x: 0, y: 0, z: -s },
    };
    let p = rad / 256;
    let q = d / 256;
    vstd::arithmetic::div_mod::lemma_fundamental_div_mod(rad, 256);
    vstd::arithmetic::div_mod::lemma_fundamental_div_mod(d, 256);
    assert(rad == 256 * p && d == 256 * q);
    let oc = v3_sub(r.origin, sp.center);
    assert(oc == (V3 { x: 0, y: 0, z: d }));
    assert(0int * 0int == 0) by (nonlinear_arith);
    assert((-65536int) * (-65536int) == 4294967296int) by (nonlinear_arith);
    lemma_tdiv_mul_cancel(65536);
    let a = v3_len_sq(r.direction);
    assert(dot_num(r.direction, r.direction) == 4294967296int);
    assert(a == s);
    assert(dot_num(oc, r.direction) == d * (-65536));
    assert(d * (-65536) == 65536 * (-d));
    lemma_tdiv_mul_cancel(-d);
    let half_b = v3_dot(oc, r.direction);
    assert(half_b == -d);
    assert(d * d == 65536 * (q * q) && 0 < q * q <= 0x1_0000_0000_0000int
        && rad * rad == 65536 * (p * p) && 0 < p * p <= 0x1_0000_0000_0000int
        && p < q && p * p < q * q && p >= 1) by (nonlinear_arith)
        requires
            rad == 256 * p,
            d == 256 * q,
            0 < rad < d <= 0x1_0000_0000,
    ;
    lemma_tdiv_mul_cancel(q * q);
    lemma_tdiv_mul_cancel(p * p);
    assert(dot_num(oc, oc) == d * d);
    assert(v3_len_sq(oc) == q * q);
    assert(mul_bits(sp.radius, sp.radius) == p * p);
    let cc = sat(v3_len_sq(oc) - mul_bits(sp.radius, sp.radius));
    assert(cc == q * q - p * p);
    assert((-d) * (-d) == d * d) by (nonlinear_arith);
    assert(mul_bits(half_b, half_b) == q * q);
    lemma_mul_bits_one(cc);
    assert(mul_bits(a, cc) == cc);
    let disc = sat(mul_bits(half_b, half_b) - mul_bits(a, cc));
    assert(disc == p * p);
    assert((p * p) * 65536 == rad * rad && is_sqrt(((p * p) * 65536) as nat, rad as nat))
        by (nonlinear_arith)
        requires
            rad == 256 * p,
            rad > 0,
    ;
    lemma_sqrt_nat_is(((p * p) * 65536) as nat, rad as nat);
    let sqrtd = sqrt_bits(disc);
    assert(sqrtd == rad);
    let n1 = sat(sat(-half_b) - sqrtd);
    assert(n1 == d - rad);
    lemma_tdiv_mul_cancel(d - rad);
    assert((d - rad) * 65536 == 65536 * (d - rad));
    assert(div_bits(n1, a) == d - rad);
    assert(sphere_hit_t(sp, r, t_min, t_max) == Some(d - rad));
    let t = d - rad;
    let point = ray_at(r, t);
    assert(0int * t == 0) by (nonlinear_arith);
    lemma_tdiv_nonneg(0, 65536);
    assert(mul_bits(0, t) == 0);
    assert((-65536int) * t == 65536 * (-t));
    lemma_tdiv_mul_cancel(-t);
    assert(mul_bits(-s, t) == -t);
    assert(point == (V3 { x: center.x, y: center.y, z: center.z + rad }));
    let diff = v3_sub(point, sp.center);
    assert(diff == (V3 { x: 0, y: 0, z: rad }));
    assert(0int * 65536int == 0) by (nonlinear_arith);
    vstd::arithmetic::div_mod::lemma_div_of0(rad);
    assert(div_bits(0, rad) == 0);
    assert(rad * 65536 == 65536 * rad);
    vstd::arithmetic::div_mod::lemma_div_multiples_vanish(65536, rad);
    assert(absv(rad * 65536) == rad * 65536);
    assert(tdiv(rad * 65536, rad) == 65536);
    assert(div_bits(rad, rad) == s);
    let outward = v3_divs(diff, sp.radius);
    assert(outward == (V3 { x: 0, y: 0, z: s }));
    assert((-65536int) * 65536int == 65536int * (-65536int)) by (nonlinear_arith);
    lemma_tdiv_mul_cancel(-65536);
    assert(dot_num(r.direction, outward) == (-65536int) * 65536int);
    assert(v3_dot(r.direction, outward) == -s);
    assert(sphere_hit_rec(sp, r, t) == (HitV {
        point: V3 { x: center.x, y: center.y, z: center.z + rad },
        normal: V3 { x: 0, y: 0, z: s },
        mat,
        t: d - rad,
        front_face: true,
    }));
}

impl Sphere {
    pub open spec fn wf(self) -> bool {
        sphere_wf(self@)
    }

    /// Reports the closest intersection of `ray` with this sphere whose
    /// parameter lies in `[t_min, t_max]`, exactly as `sphere_hit` describes.
    pub fn hit(&self, ray: &Ray, t_min: Fx, t_max: Fx) -> (res: Option<HitRecord>)
        requires
            self.wf(),
            ray.wf(),
        ensures
            (res is Some) == (sphere_hit(self@, ray@, t_min@, t_max@) is Some),
            res is Some ==> res->Some_0@ == sphere_hit(self@, ray@, t_min@, t_max@)->Some_0,
            res is Some ==> hit_wf(res->Some_0@),
    {
        let oc = ray.origin.sub(self.center);
        let a = ray.direction.length_squared();
        let half_b = dot(&oc, &ray.direction);
        let c = oc.length_squared().sub(self.radius.mul(self.radius));
        let discriminant = half_b.mul(half_b).sub(a.mul(c));
        if discriminant.lt(Fx::zero()) {
            return None;
        }
        let discriminant_sqrt = discriminant.sqrt();
        let mut root = half_b.neg().sub(discriminant_sqrt).div(a);
        if root.lt(t_min) || t_max.lt(root) {
            root = half_b.neg().add(discriminant_sqrt).div(a);
            if root.lt(t_min) || t_max.lt(root) {
                return None;
            }
        }
        let point = ray.at(root);
        let outward_normal = point.sub(self.center).div_s(self.radius);
        let mut rec = HitRecord {
            point,
            normal: point.sub(self.center),
            mat: self.mat,
            t: root,
            front_face: true,
        };
        rec.set_face_normal(ray, &outward_normal);
        Some(rec)
    }
}

} // verus!
