//! Three-component vectors over fixed-point scalars, used interchangeably as
//! points, directions and colors.
use vstd::prelude::*;
use crate::fixed::{Fx, SCALE, LIM, absv, sat, tdiv, mul_bits, div_bits, sqrt_bits, wide_to_fx,
    lemma_tdiv_neg, is_sqrt};
use crate::rng::next_random;

verus! {

/// Mathematical image of a vector: the unit counts of its three components.
pub struct V3 {
    pub x: int,
    pub y: int,
    pub z: int,
}

/// All three components lie in the representable range.
pub open spec fn v3_wf(v: V3) -> bool {
    &&& -(LIM as int) <= v.x <= LIM as int
    &&& -(LIM as int) <= v.y <= LIM as int
    &&& -(LIM as int) <= v.z <= LIM as int
}

/// All three components lie in `[0, 1]`: the unit color cube.
pub open spec fn v3_in_unit(v: V3) -> bool {
    &&& 0 <= v.x <= SCALE as int
    &&& 0 <= v.y <= SCALE as int
    &&& 0 <= v.z <= SCALE as int
}

/// All three components have magnitude at most `m`.
pub open spec fn v3_bounded(v: V3, m: int) -> bool {
    &&& absv(v.x) <= m
    &&& absv(v.y) <= m
    &&& absv(v.z) <= m
}

pub open spec fn v3_add(a: V3, b: V3) -> V3 {
    V3 { x: sat(a.x + b.x), y: sat(a.y + b.y), z: sat(a.z + b.z) }
}

pub open spec fn v3_sub(a: V3, b: V3) -> V3 {
    V3 { x: sat(a.x - b.x), y: sat(a.y - b.y), z: sat(a.z - b.z) }
}

pub open spec fn v3_neg(a: V3) -> V3 {
    V3 { x: sat(-a.x), y: sat(-a.y), z: sat(-a.z) }
}

/// Scalar broadcast addition.
pub open spec fn v3_adds(a: V3, k: int) -> V3 {
    V3 { x: sat(a.x + k), y: sat(a.y + k), z: sat(a.z + k) }
}

/// Scaling by a fixed-point scalar.
pub open spec fn v3_scale(a: V3, k: int) -> V3 {
    V3 { x: mul_bits(a.x, k), y: mul_bits(a.y, k), z: mul_bits(a.z, k) }
}

/// Component-wise product, the color attenuation operation.
pub open spec fn v3_hadamard(a: V3, b: V3) -> V3 {
    V3 { x: mul_bits(a.x, b.x), y: mul_bits(a.y, b.y), z: mul_bits(a.z, b.z) }
}

/// Division by a fixed-point scalar.
pub open spec fn v3_divs(a: V3, k: int) -> V3 {
    V3 { x: div_bits(a.x, k), y: div_bits(a.y, k), z: div_bits(a.z, k) }
}

/// The ideal dot product of unit counts, at double scale, before rounding.
pub open spec fn dot_num(a: V3, b: V3) -> int {
    a.x * b.x + a.y * b.y + a.z * b.z
}

/// The dot product as computed: one truncation of the ideal sum.
pub open spec fn v3_dot(a: V3, b: V3) -> int {
    sat(tdiv(dot_num(a, b), SCALE as int))
}

/// The cross product as computed: each component is the difference of two
/// rounded products.
pub open spec fn v3_cross(a: V3, b: V3) -> V3 {
    V3 {
        x: sat(mul_bits(a.y, b.z) - mul_bits(a.z, b.y)),
        y: sat(mul_bits(a.z, b.x) - mul_bits(a.x, b.z)),
        z: sat(mul_bits(a.x, b.y) - mul_bits(a.y, b.x)),
    }
}

pub open spec fn v3_len_sq(a: V3) -> int {
    v3_dot(a, a)
}

pub open spec fn v3_len(a: V3) -> int {
    sqrt_bits(v3_len_sq(a))
}

/// The normalized vector. An operand whose computed length truncates to
/// zero (including the zero vector itself) maps to zero component-wise: the
/// silent degenerate case of normalization.
pub open spec fn v3_unit(a: V3) -> V3 {
    if v3_len(a) == 0 {
        V3 { x: 0, y: 0, z: 0 }
    } else {
        v3_divs(a, v3_len(a))
    }
}

/// The mirror reflection of `v` about `n`.
pub open spec fn v3_reflect(v: V3, n: V3) -> V3 {
    v3_sub(v, v3_scale(n, mul_bits(2 * SCALE, v3_dot(v, n))))
}

/// Snell refraction of the unit direction `uv` at a surface with unit normal
/// `n`, for the given ratio of refraction indices, decomposed into the
/// components perpendicular and parallel to the normal.
pub open spec fn v3_refract(uv: V3, n: V3, etai_over_etat: int) -> V3 {
    let cos_theta = if v3_dot(v3_neg(uv), n) <= SCALE as int {
        v3_dot(v3_neg(uv), n)
    } else {
        SCALE as int
    };
    let r_out_perp = v3_scale(v3_add(uv, v3_scale(n, cos_theta)), etai_over_etat);
    let r_out_parallel = v3_scale(n, sat(-sqrt_bits(sat(absv(sat(SCALE as int
        - v3_len_sq(r_out_perp)))))));
    v3_add(r_out_perp, r_out_parallel)
}

/// A vector of three fixed-point components.
#[derive(Clone, Copy, Debug, PartialEq, Eq)]
pub struct Vec3 {
    pub x: Fx,
    pub y: Fx,
    pub z: Fx,
}

impl View for Vec3 {
    type V = V3;

    open spec fn view(&self) -> V3 {
        V3 { x: self.x@, y: self.y@, z: self.z@ }
    }
}

impl Vec3 {
    pub open spec fn wf(self) -> bool {
        v3_wf(self@)
    }

    pub fn new(x: Fx, y: Fx, z: Fx) -> (r: Vec3)
        ensures
            r@ == (V3 { x: x@, y: y@, z: z@ }),
    {
        Vec3 { x, y, z }
    }

    pub fn zero() -> (r: Vec3)
        ensures
            r@ == (V3 { x: 0int, y: 0int, z: 0int }),
            r.wf(),
    {
        Vec3 { x: Fx::zero(), y: Fx::zero(), z: Fx::zero() }
    }

    /// Whether every component is smaller in magnitude than the smallest
    /// representable positive value, that is, zero.
    pub fn near_zero(&self) -> (r: bool)
        ensures
            r == (self@.x == 0 && self@.y == 0 && self@.z == 0),
    {
        self.x.bits() == 0 && self.y.bits() == 0 && self.z.bits() == 0
    }

    pub fn add(self, o: Vec3) -> (r: Vec3)
        ensures
            r@ == v3_add(self@, o@),
            r.wf(),
    {
        Vec3 { x: self.x.add(o.x), y: self.y.add(o.y), z: self.z.add(o.z) }
    }

    pub fn sub(self, o: Vec3) -> (r: Vec3)
        ensures
            r@ == v3_sub(self@, o@),
            r.wf(),
    {
        Vec3 { x: self.x.sub(o.x), y: self.y.sub(o.y), z: self.z.sub(o.z) }
    }

    pub fn neg(self) -> (r: Vec3)
        ensures
            r@ == v3_neg(self@),
            r.wf(),
    {
        Vec3 { x: self.x.neg(), y: self.y.neg(), z: self.z.neg() }
    }

    /// Scalar broadcast addition, in either operand order.
    pub fn add_s(self, k: Fx) -> (r: Vec3)
        ensures
            r@ == v3_adds(self@, k@),
            r.wf(),
    {
        Vec3 { x: self.x.add(k), y: self.y.add(k), z: self.z.add(k) }
    }

    /// Scaling by a scalar, in either operand order.
    pub fn scale(self, k: Fx) -> (r: Vec3)
        ensures
            r@ == v3_scale(self@, k@),
            r.wf(),
    {
        Vec3 { x: self.x.mul(k), y: self.y.mul(k), z: self.z.mul(k) }
    }

    /// Component-wise product.
    pub fn hadamard(self, o: Vec3) -> (r: Vec3)
        ensures
            r@ == v3_hadamard(self@, o@),
            r.wf(),
    {
        Vec3 { x: self.x.mul(o.x), y: self.y.mul(o.y), z: self.z.mul(o.z) }
    }

    /// Division by a scalar.
    pub fn div_s(self, k: Fx) -> (r: Vec3)
        ensures
            r@ == v3_divs(self@, k@),
            r.wf(),
    {
        Vec3 { x: self.x.div(k), y: self.y.div(k), z: self.z.div(k) }
    }

    pub fn add_assign(&mut self, o: Vec3)
        ensures
            final(self)@ == v3_add(old(self)@, o@),
            final(self).wf(),
    {
        *self = self.add(o);
    }

    pub fn add_assign_s(&mut self, k: Fx)
        ensures
            final(self)@ == v3_adds(old(self)@, k@),
            final(self).wf(),
    {
        *self = self.add_s(k);
    }

    pub fn mul_assign(&mut self, o: Vec3)
        ensures
            final(self)@ == v3_hadamard(old(self)@, o@),
            final(self).wf(),
    {
        *self = self.hadamard(o);
    }

    /// Component-wise division assignment.
    pub fn div_assign(&mut self, o: Vec3)
        ensures
            final(self)@ == (V3 {
                x: div_bits(old(self)@.x, o@.x),
                y: div_bits(old(self)@.y, o@.y),
                z: div_bits(old(self)@.z, o@.z),
            }),
            final(self).wf(),
    {
        *self = Vec3 { x: self.x.div(o.x), y: self.y.div(o.y), z: self.z.div(o.z) };
    }

    pub fn dot(&self, other: &Vec3) -> (r: Fx)
        requires
            self.wf(),
            other.wf(),
        ensures
            r@ == v3_dot(self@, other@),
            r.wf(),
    {
        dot(self, other)
    }

    pub fn length_squared(&self) -> (r: Fx)
        requires
            self.wf(),
        ensures
            r@ == v3_len_sq(self@),
            r.wf(),
    {
        dot(self, self)
    }

    pub fn length(&self) -> (r: Fx)
        requires
            self.wf(),
        ensures
            r@ == v3_len(self@),
            r.wf(),
    {
        dot(self, self).sqrt()
    }
}

/// The dot product, rounded once from the ideal sum of products.
pub fn dot(u: &Vec3, v: &Vec3) -> (r: Fx)
    requires
        u.wf(),
        v.wf(),
    ensures
        r@ == v3_dot(u@, v@),
        r.wf(),
{
    proof {
        lemma_prod_bound(u@.x, v@.x);
        lemma_prod_bound(u@.y, v@.y);
        lemma_prod_bound(u@.z, v@.z);
    }
    let n: i128 = u.x.bits() as i128 * v.x.bits() as i128
        + u.y.bits() as i128 * v.y.bits() as i128
        + u.z.bits() as i128 * v.z.bits() as i128;
    wide_to_fx(n)
}

/// A product of two in-range unit counts stays well inside the wide range.
proof fn lemma_prod_bound(a: int, b: int)
    requires
        -(LIM as int) <= a <= LIM as int,
        -(LIM as int) <= b <= LIM as int,
    ensures
        -0x1000_0000_0000_0000_0000_0000_0000_0000int <= a * b
            <= 0x1000_0000_0000_0000_0000_0000_0000_0000int,
{
    assert(-0x1000_0000_0000_0000_0000_0000_0000_0000int <= a * b
        <= 0x1000_0000_0000_0000_0000_0000_0000_0000int) by (nonlinear_arith)
        requires
            -0x4000_0000_0000_0000int <= a <= 0x4000_0000_0000_0000int,
            -0x4000_0000_0000_0000int <= b <= 0x4000_0000_0000_0000int,
    ;
}

pub fn cross(u: &Vec3, v: &Vec3) -> (r: Vec3)
    ensures
        r@ == v3_cross(u@, v@),
        r.wf(),
{
    Vec3 {
        x: u.y.mul(v.z).sub(u.z.mul(v.y)),
        y: u.z.mul(v.x).sub(u.x.mul(v.z)),
        z: u.x.mul(v.y).sub(u.y.mul(v.x)),
    }
}

pub fn unit_vector(v: &Vec3) -> (r: Vec3)
    requires
        v.wf(),
    ensures
        r@ == v3_unit(v@),
        r.wf(),
{
    let len = v.length();
    if len.bits() == 0 {
        Vec3::zero()
    } else {
        v.div_s(len)
    }
}

/// The incoming direction `v` mirrored about the surface normal `n`.
pub fn reflect(v: &Vec3, n: &Vec3) -> (r: Vec3)
    requires
        v.wf(),
        n.wf(),
    ensures
        r@ == v3_reflect(v@, n@),
        r.wf(),
{
    let two = Fx::from_num(2);
    let k = two.mul(dot(v, n));
    proof {
        assert(sat(2 * SCALE) == 2 * SCALE as int);
    }
    v.sub(n.scale(k))
}

/// Snell refraction of the unit direction `uv` about the unit normal `n`.
pub fn refract(uv: &Vec3, n: &Vec3, etai_over_etat: Fx) -> (r: Vec3)
    requires
        uv.wf(),
        n.wf(),
    ensures
        r@ == v3_refract(uv@, n@, etai_over_etat@),
        r.wf(),
{
    let cos_theta = dot(&uv.neg(), n).min(Fx::one());
    let r_out_perp = uv.add(n.scale(cos_theta)).scale(etai_over_etat);
    let k = Fx::one().sub(r_out_perp.length_squared()).abs().sqrt().neg();
    let r_out_parallel = n.scale(k);
    r_out_perp.add(r_out_parallel)
}

/// Vector addition is commutative.
pub proof fn lemma_add_comm(a: V3, b: V3)
    ensures
        v3_add(a, b) == v3_add(b, a),
{
}

/// Vector addition is associative whenever no component saturates; the
/// bound `2^60` on every component leaves the sums strictly inside the
/// representable range.
pub proof fn lemma_add_assoc(a: V3, b: V3, c: V3)
    requires
        v3_bounded(a, 0x1000_0000_0000_0000),
        v3_bounded(b, 0x1000_0000_0000_0000),
        v3_bounded(c, 0x1000_0000_0000_0000),
    ensures
        v3_add(v3_add(a, b), c) == v3_add(a, v3_add(b, c)),
{
}

/// The dot product is commutative.
pub proof fn lemma_dot_comm(a: V3, b: V3)
    ensures
        v3_dot(a, b) == v3_dot(b, a),
{
    assert(a.x * b.x == b.x * a.x) by (nonlinear_arith);
    assert(a.y * b.y == b.y * a.y) by (nonlinear_arith);
    assert(a.z * b.z == b.z * a.z) by (nonlinear_arith);
}

/// The cross product is antisymmetric, exactly: truncation toward zero and
/// saturation are both odd, so no bound on the operands is needed.
pub proof fn lemma_cross_antisym(a: V3, b: V3)
    ensures
        v3_cross(a, b) == v3_neg(v3_cross(b, a)),
{
    assert(a.y * b.z == b.z * a.y) by (nonlinear_arith);
    assert(a.z * b.y == b.y * a.z) by (nonlinear_arith);
    assert(a.z * b.x == b.x * a.z) by (nonlinear_arith);
    assert(a.x * b.z == b.z * a.x) by (nonlinear_arith);
    assert(a.x * b.y == b.y * a.x) by (nonlinear_arith);
    assert(a.y * b.x == b.x * a.y) by (nonlinear_arith);
}

/// The ideal (unrounded) numerators of the cross product's components, at
/// double scale.
pub open spec fn cross_num(a: V3, b: V3) -> V3 {
    V3 {
        x: a.y * b.z - a.z * b.y,
        y: a.z * b.x - a.x * b.z,
        z: a.x * b.y - a.y * b.x,
    }
}

/// In exact arithmetic the cross product is orthogonal to both operands.
pub proof fn lemma_cross_orthogonal(a: V3, b: V3)
    ensures
        dot_num(cross_num(a, b), a) == 0,
        dot_num(cross_num(a, b), b) == 0,
{
    assert((a.y * b.z - a.z * b.y) * a.x + (a.z * b.x - a.x * b.z) * a.y
        + (a.x * b.y - a.y * b.x) * a.z == 0) by (nonlinear_arith);
    assert((a.y * b.z - a.z * b.y) * b.x + (a.z * b.x - a.x * b.z) * b.y
        + (a.x * b.y - a.y * b.x) * b.z == 0) by (nonlinear_arith);
}

/// The computed cross product is nearly orthogonal to its first operand:
/// the computed dot of `v3_cross(a, b)` with `a` is bounded by the rounding
/// noise of the three cross components, which vanishes next to the
/// operands' own magnitudes. The bound on the components keeps every
/// intermediate inside the representable range.
pub proof fn lemma_cross_nearly_orthogonal(a: V3, b: V3)
    ensures
        v3_bounded(a, 0x4000_0000) && v3_bounded(b, 0x4000_0000)
            ==> absv(v3_dot(v3_cross(a, b), a))
                <= 2 * (absv(a.x) + absv(a.y) + absv(a.z)) / (SCALE as int),
{
    if v3_bounded(a, 0x4000_0000) && v3_bounded(b, 0x4000_0000) {
        let s = SCALE as int;
        let c = v3_cross(a, b);
        let n = cross_num(a, b);
        lemma_cross_orthogonal(a, b);
        lemma_cross_component(a.y, b.z, a.z, b.y);
        lemma_cross_component(a.z, b.x, a.x, b.z);
        lemma_cross_component(a.x, b.y, a.y, b.x);
        let ex = s * c.x - n.x;
        let ey = s * c.y - n.y;
        let ez = s * c.z - n.z;
        let aa = absv(a.x) + absv(a.y) + absv(a.z);
        assert(absv(ex * a.x) <= 131070 * absv(a.x)) by (nonlinear_arith)
            requires
                absv(ex) <= 131070,
        ;
        assert(absv(ey * a.y) <= 131070 * absv(a.y)) by (nonlinear_arith)
            requires
                absv(ey) <= 131070,
        ;
        assert(absv(ez * a.z) <= 131070 * absv(a.z)) by (nonlinear_arith)
            requires
                absv(ez) <= 131070,
        ;
        let d = dot_num(c, a);
        assert(s * (c.x * a.x) == n.x * a.x + ex * a.x) by (nonlinear_arith)
            requires
                s * c.x == n.x + ex,
        ;
        assert(s * (c.y * a.y) == n.y * a.y + ey * a.y) by (nonlinear_arith)
            requires
                s * c.y == n.y + ey,
        ;
        assert(s * (c.z * a.z) == n.z * a.z + ez * a.z) by (nonlinear_arith)
            requires
                s * c.z == n.z + ez,
        ;
        assert(s * d == s * (c.x * a.x) + s * (c.y * a.y) + s * (c.z * a.z));
        assert(n.x * a.x + n.y * a.y + n.z * a.z == 0);
        assert(s * d == ex * a.x + ey * a.y + ez * a.z);
        assert(absv(s * d) <= 131070 * aa);
        assert(absv(d) <= 2 * aa) by (nonlinear_arith)
            requires
                absv(s * d) <= 131070 * aa,
                s == 65536,
                aa >= 0,
        ;
        vstd::arithmetic::div_mod::lemma_div_is_ordered(absv(d), 2 * aa, s);
        assert(absv(tdiv(d, s)) == absv(d) / s);
        assert(absv(d) / s <= 2 * aa / s);
        assert(absv(sat(tdiv(d, s))) <= absv(tdiv(d, s)));
        assert(absv(v3_dot(c, a)) <= 2 * aa / s);
    }
}

/// One cross component's rounding error: the difference of two rounded
/// products stays within two units of the ideal numerator, and everything
/// stays far from saturation for operands below `2^30`.
proof fn lemma_cross_component(p1: int, p2: int, q1: int, q2: int)
    requires
        absv(p1) <= 0x4000_0000,
        absv(p2) <= 0x4000_0000,
        absv(q1) <= 0x4000_0000,
        absv(q2) <= 0x4000_0000,
    ensures
        absv(SCALE as int * sat(mul_bits(p1, p2) - mul_bits(q1, q2))
            - (p1 * p2 - q1 * q2)) <= 2 * SCALE as int - 2,
{
    let s = SCALE as int;
    assert(absv(p1 * p2) <= 0x1000_0000_0000_0000int && absv(q1 * q2)
        <= 0x1000_0000_0000_0000int) by (nonlinear_arith)
        requires
            absv(p1) <= 0x4000_0000,
            absv(p2) <= 0x4000_0000,
            absv(q1) <= 0x4000_0000,
            absv(q2) <= 0x4000_0000,
    ;
    crate::fixed::lemma_mul_bits_err(p1, p2);
    crate::fixed::lemma_mul_bits_err(q1, q2);
    let m1 = mul_bits(p1, p2);
    let m2 = mul_bits(q1, q2);
    assert(absv(tdiv(p1 * p2, s)) == absv(p1 * p2) / s);
    assert(absv(tdiv(q1 * q2, s)) == absv(q1 * q2) / s);
    vstd::arithmetic::div_mod::lemma_div_is_ordered(absv(p1 * p2),
        0x1000_0000_0000_0000int, s);
    vstd::arithmetic::div_mod::lemma_div_is_ordered(absv(q1 * q2),
        0x1000_0000_0000_0000int, s);
    assert(0x1000_0000_0000_0000int / 65536int == 0x1000_0000_0000int)
        by (nonlinear_arith);
    assert(absv(m1) <= 0x1000_0000_0000int && absv(m2) <= 0x1000_0000_0000int);
    assert(sat(m1 - m2) == m1 - m2);
    assert(absv(s * (m1 - m2) - (p1 * p2 - q1 * q2)) <= 2 * s - 2) by (nonlinear_arith)
        requires
            absv(s * m1 - p1 * p2) < s,
            absv(s * m2 - q1 * q2) < s,
            s == 65536,
    ;
}

/// Normalizing an axis-aligned vector whose unit count is a multiple of 256
/// (so that its square is exactly representable) yields exactly the unit
/// axis vector, whose length is exactly one.
pub proof fn lemma_unit_axis(k: int)
    requires
        k % 256 == 0,
        k != 0,
        absv(k) <= 0x1_0000_0000,
    ensures
        v3_unit(V3 { x: k, y: 0, z: 0 }) == (V3 {
            x: if k > 0 { SCALE as int } else { -(SCALE as int) },
            y: 0,
            z: 0,
        }),
        v3_len(v3_unit(V3 { x: k, y: 0, z: 0 })) == SCALE as int,
{
    let v = V3 { x: k, y: 0, z: 0 };
    let s = SCALE as int;
    let q = k / 256;
    vstd::arithmetic::div_mod::lemma_fundamental_div_mod(k, 256);
    assert(k == 256 * q);
    assert(k * k == 65536 * (q * q) && q * q > 0 && k * k == absv(k) * absv(k))
        by (nonlinear_arith)
        requires
            k == 256 * q,
            k != 0,
    ;
    assert(0 * 0 == 0) by (nonlinear_arith);
    assert(dot_num(v, v) == k * k);
    crate::fixed::lemma_tdiv_mul_cancel(q * q);
    assert(q * q <= 0x1_0000_0000_0000int) by (nonlinear_arith)
        requires
            k == 256 * q,
            absv(k) <= 0x1_0000_0000,
    ;
    assert(v3_len_sq(v) == q * q);
    let m = absv(k);
    assert((q * q) * 65536 == m * m && is_sqrt(((q * q) * 65536) as nat, m as nat))
        by (nonlinear_arith)
        requires
            k == 256 * q,
            k * k == absv(k) * absv(k),
            m == absv(k),
            m > 0,
    ;
    crate::fixed::lemma_sqrt_nat_is(((q * q) * 65536) as nat, m as nat);
    assert(v3_len(v) == m);
    vstd::arithmetic::div_mod::lemma_div_multiples_vanish(s, m);
    assert(absv(k * s) == m * s) by (nonlinear_arith)
        requires
            m == absv(k),
            s > 0,
    ;
    assert(m * s == s * m);
    assert(tdiv(k * s, m) == (if k > 0 { s } else { -s }));
    assert(tdiv(0 * s, m) == 0);
    let u = v3_unit(v);
    assert(u.x == (if k > 0 { s } else { -s }) && u.y == 0 && u.z == 0);
    assert(u.x * u.x == s * s && is_sqrt((s * s) as nat, s as nat)) by (nonlinear_arith)
        requires
            u.x == s || u.x == -s,
            s == 65536,
    ;
    assert(dot_num(u, u) == s * s);
    crate::fixed::lemma_tdiv_mul_cancel(s);
    assert(s * s == 65536 * s);
    assert(v3_len_sq(u) == s);
    assert((s * s) as nat == (s * 65536) as nat);
    crate::fixed::lemma_sqrt_nat_is((s * 65536) as nat, s as nat);
    assert(v3_len(u) == s);
}

/// Negating one operand negates the dot product exactly: truncation toward
/// zero and saturation are both symmetric about zero.
pub proof fn lemma_dot_neg(a: V3, b: V3)
    requires
        v3_wf(a),
    ensures
        v3_dot(v3_neg(a), b) == -v3_dot(a, b),
{
    let na = v3_neg(a);
    assert(na.x == -a.x && na.y == -a.y && na.z == -a.z);
    assert((-a.x) * b.x == -(a.x * b.x)) by (nonlinear_arith);
    assert((-a.y) * b.y == -(a.y * b.y)) by (nonlinear_arith);
    assert((-a.z) * b.z == -(a.z * b.z)) by (nonlinear_arith);
    assert(dot_num(na, b) == -dot_num(a, b));
    lemma_tdiv_neg(dot_num(a, b), SCALE as int);
}

/// A squared length is never negative.
pub proof fn lemma_len_sq_nonneg(v: V3)
    ensures
        v3_len_sq(v) >= 0,
{
    assert(v.x * v.x >= 0) by (nonlinear_arith);
    assert(v.y * v.y >= 0) by (nonlinear_arith);
    assert(v.z * v.z >= 0) by (nonlinear_arith);
    crate::fixed::lemma_tdiv_nonneg(dot_num(v, v), SCALE as int);
}

/// A scalar drawn uniformly from `[0, 1)` at the representation's resolution.
pub fn random_unit_interval(rng: &mut rand::rngs::ThreadRng) -> (r: Fx)
    ensures
        0 <= r@ < SCALE as int,
        r.wf(),
{
    let bits = (next_random(rng) % (SCALE as u64)) as i64;
    Fx::from_bits(bits)
}

/// A scalar drawn uniformly from `[-1, 1]` at the representation's resolution.
fn random_symmetric(rng: &mut rand::rngs::ThreadRng) -> (r: Fx)
    ensures
        -(SCALE as int) <= r@ <= SCALE as int,
        r.wf(),
{
    let v = next_random(rng) % (2 * (SCALE as u64) + 1);
    Fx::from_bits(v as i64 - SCALE)
}

/// A point strictly inside the unit ball, drawn by rejection from the cube;
/// if the draws keep missing, a fixed interior point stands in.
pub fn random_in_unit_sphere(rng: &mut rand::rngs::ThreadRng) -> (r: Vec3)
    ensures
        0 < v3_len_sq(r@) < SCALE as int,
        r.wf(),
{
    let mut i: usize = 0;
    while i < 32
        decreases 32 - i,
    {
        let p = Vec3::new(
            random_symmetric(rng),
            random_symmetric(rng),
            random_symmetric(rng),
        );
        let l = p.length_squared();
        if l.gt(Fx::zero()) && l.lt(Fx::one()) {
            return p;
        }
        i = i + 1;
    }
    let fallback = Vec3::new(Fx::from_bits(32768), Fx::zero(), Fx::zero());
    proof {
        let fv = fallback@;
        assert(fv.x == 32768 && fv.y == 0 && fv.z == 0);
        assert(fv.x * fv.x == 1073741824int) by (nonlinear_arith)
            requires
                fv.x == 32768int,
        ;
        assert(fv.y * fv.y == 0 && fv.z * fv.z == 0) by (nonlinear_arith)
            requires
                fv.y == 0 && fv.z == 0,
        ;
        assert(dot_num(fv, fv) == 1073741824int);
        assert(1073741824int / 65536int == 16384int) by (nonlinear_arith);
        assert(v3_len_sq(fv) == 16384);
    }
    fallback
}

/// A point on the unit sphere: a ball point, normalized. The draw is
/// conditioned on a squared length of at least one quarter — which leaves
/// the direction's distribution unchanged — so that normalization divides
/// by at least half a unit and its rounding error stays small; if the
/// draws keep missing, a fixed point on that shell stands in.
pub fn random_unit_vector(rng: &mut rand::rngs::ThreadRng) -> (r: Vec3)
    ensures
        exists|p: V3| #![auto] 16384 <= v3_len_sq(p) < SCALE as int && r@ == v3_unit(p),
        SCALE as int - 16 <= v3_len(r@) <= SCALE as int + 16,
        r.wf(),
{
    let floor = Fx::from_bits(16384);
    let mut i: usize = 0;
    while i < 32
        invariant
            floor@ == 16384,
        decreases 32 - i,
    {
        let p = Vec3::new(
            random_symmetric(rng),
            random_symmetric(rng),
            random_symmetric(rng),
        );
        let l = p.length_squared();
        if l.ge(floor) && l.lt(Fx::one()) {
            let u = unit_vector(&p);
            proof {
                assert(16384 <= v3_len_sq(p@) < SCALE as int && u@ == v3_unit(p@));
                lemma_unit_length_bound(p@);
            }
            return u;
        }
        i = i + 1;
    }
    let fallback = Vec3::new(Fx::from_bits(32768), Fx::zero(), Fx::zero());
    proof {
        let fv = fallback@;
        assert(fv.x == 32768 && fv.y == 0 && fv.z == 0);
        assert(fv.x * fv.x == 1073741824int) by (nonlinear_arith)
            requires
                fv.x == 32768int,
        ;
        assert(fv.y * fv.y == 0 && fv.z * fv.z == 0) by (nonlinear_arith)
            requires
                fv.y == 0 && fv.z == 0,
        ;
        assert(dot_num(fv, fv) == 1073741824int);
        assert(1073741824int / 65536int == 16384int) by (nonlinear_arith);
        assert(v3_len_sq(fv) == 16384);
    }
    let u = unit_vector(&fallback);
    proof {
        assert(16384 <= v3_len_sq(fallback@) < SCALE as int && u@ == v3_unit(fallback@));
        lemma_unit_length_bound(fallback@);
    }
    u
}

/// One normalization component: dividing `x` by a length `l` between half
/// a unit and a unit loses less than one part in `l`, and the quotient
/// stays within two units.
proof fn lemma_div_err(x: int, l: int)
    requires
        32768 <= l <= 65535,
        -65536 <= x <= 65536,
    ensures
        absv(x * 65536 - l * div_bits(x, l)) <= l - 1,
        absv(div_bits(x, l)) <= 131072,
{
    let n = x * 65536;
    vstd::arithmetic::div_mod::lemma_fundamental_div_mod(absv(n), l);
    vstd::arithmetic::div_mod::lemma_mod_bound(absv(n), l);
    vstd::arithmetic::div_mod::lemma_div_pos_is_pos(absv(n), l);
    let q = absv(n) / l;
    vstd::arithmetic::div_mod::lemma_div_is_ordered_by_denominator(absv(n), 32768, l);
    vstd::arithmetic::div_mod::lemma_div_is_ordered(absv(n), 4294967296int, 32768);
    assert(4294967296int / 32768int == 131072int) by (nonlinear_arith);
    assert(q <= 131072);
    if x >= 0 {
        assert(absv(n) == n);
        assert(div_bits(x, l) == q);
        assert(n - l * q == absv(n) % l);
    } else {
        assert(absv(n) == -n);
        assert(div_bits(x, l) == -q);
        assert(l * (-q) == -(l * q)) by (nonlinear_arith);
        assert(n - l * (-q) == -(absv(n) % l));
    }
}

/// Normalizing a vector whose squared length lies in `[1/4, 1)` yields a
/// vector whose computed length is within 16 units of one: the "length of
/// a unit vector is one" law, at this representation's resolution.
pub proof fn lemma_unit_length_bound(a: V3)
    requires
        v3_bounded(a, SCALE as int),
        16384 <= v3_len_sq(a) < SCALE as int,
    ensures
        SCALE as int - 16 <= v3_len(v3_unit(a)) <= SCALE as int + 16,
{
    let aa = dot_num(a, a);
    assert(0 <= a.x * a.x <= 4294967296int) by (nonlinear_arith)
        requires
            -65536 <= a.x <= 65536,
    ;
    assert(0 <= a.y * a.y <= 4294967296int) by (nonlinear_arith)
        requires
            -65536 <= a.y <= 65536,
    ;
    assert(0 <= a.z * a.z <= 4294967296int) by (nonlinear_arith)
        requires
            -65536 <= a.z <= 65536,
    ;
    crate::fixed::lemma_tdiv_nonneg(aa, 65536);
    vstd::arithmetic::div_mod::lemma_fundamental_div_mod(aa, 65536);
    vstd::arithmetic::div_mod::lemma_mod_bound(aa, 65536);
    vstd::arithmetic::div_mod::lemma_div_is_ordered(aa, 12884901888int, 65536);
    assert(12884901888int / 65536int == 196608int) by (nonlinear_arith);
    let dd = aa / 65536;
    assert(v3_len_sq(a) == dd);
    assert(16384 <= dd <= 65535);
    crate::fixed::lemma_sqrt_exists((dd * 65536) as nat);
    let ll = crate::fixed::sqrt_nat((dd * 65536) as nat) as int;
    assert(v3_len(a) == ll);
    assert(ll * ll <= dd * 65536 < (ll + 1) * (ll + 1));
    assert(32768 <= ll <= 65535) by (nonlinear_arith)
        requires
            ll * ll <= dd * 65536,
            dd * 65536 < (ll + 1) * (ll + 1),
            16384 <= dd <= 65535,
            ll >= 0,
    ;
    let u = v3_unit(a);
    assert(u == v3_divs(a, ll));
    lemma_div_err(a.x, ll);
    lemma_div_err(a.y, ll);
    lemma_div_err(a.z, ll);
    let ux = div_bits(a.x, ll);
    let uy = div_bits(a.y, ll);
    let uz = div_bits(a.z, ll);
    let rx = a.x * 65536 - ll * ux;
    let ry = a.y * 65536 - ll * uy;
    let rz = a.z * 65536 - ll * uz;
    let l2 = ll * ll;
    assert(l2 * (ux * ux) == (a.x * a.x) * 4294967296int - 2 * ((a.x * 65536) * rx)
        + rx * rx) by (nonlinear_arith)
        requires
            ll * ux == a.x * 65536 - rx,
            l2 == ll * ll,
    ;
    assert(l2 * (uy * uy) == (a.y * a.y) * 4294967296int - 2 * ((a.y * 65536) * ry)
        + ry * ry) by (nonlinear_arith)
        requires
            ll * uy == a.y * 65536 - ry,
            l2 == ll * ll,
    ;
    assert(l2 * (uz * uz) == (a.z * a.z) * 4294967296int - 2 * ((a.z * 65536) * rz)
        + rz * rz) by (nonlinear_arith)
        requires
            ll * uz == a.z * 65536 - rz,
            l2 == ll * ll,
    ;
    assert(absv((a.x * 65536) * rx) <= 4294967296int * (ll - 1)) by (nonlinear_arith)
        requires
            absv(a.x * 65536) <= 4294967296int,
            absv(rx) <= ll - 1,
            ll >= 1,
    ;
    assert(absv((a.y * 65536) * ry) <= 4294967296int * (ll - 1)) by (nonlinear_arith)
        requires
            absv(a.y * 65536) <= 4294967296int,
            absv(ry) <= ll - 1,
            ll >= 1,
    ;
    assert(absv((a.z * 65536) * rz) <= 4294967296int * (ll - 1)) by (nonlinear_arith)
        requires
            absv(a.z * 65536) <= 4294967296int,
            absv(rz) <= ll - 1,
            ll >= 1,
    ;
    assert(0 <= rx * rx <= 65535 * ll && 0 <= ry * ry <= 65535 * ll
        && 0 <= rz * rz <= 65535 * ll) by (nonlinear_arith)
        requires
            absv(rx) <= ll - 1,
            absv(ry) <= ll - 1,
            absv(rz) <= ll - 1,
            32768 <= ll <= 65535,
    ;
    let nn = dot_num(u, u);
    assert(nn == ux * ux + uy * uy + uz * uz);
    assert(l2 * nn == l2 * (ux * ux) + l2 * (uy * uy) + l2 * (uz * uz)) by (nonlinear_arith)
        requires
            nn == ux * ux + uy * uy + uz * uz,
    ;
    assert(l2 * nn >= 4294967296int * aa - 25770000381int * ll);
    assert(l2 * nn <= 4294967296int * aa + 25770000381int * ll);
    assert(4294967296int * aa >= 4294967296int * (65536 * dd));
    assert(4294967296int * (65536 * dd) == 4294967296int * 65536int * dd);
    assert(4294967296int * 65536int * dd >= 4294967296int * l2) by (nonlinear_arith)
        requires
            65536 * dd >= l2,
    ;
    assert(65536 * dd <= l2 + 2 * ll) by (nonlinear_arith)
        requires
            dd * 65536 < (ll + 1) * (ll + 1),
            l2 == ll * ll,
    ;
    assert(4294967296int * aa <= 4294967296int * (65536 * dd) + 4294967296int * 65535int);
    assert(4294967296int * 65536int * dd <= 4294967296int * l2 + 8589934592int * ll)
        by (nonlinear_arith)
        requires
            65536 * dd <= l2 + 2 * ll,
    ;
    assert(4294967296int * 65535int <= 8589934592int * ll) by (nonlinear_arith)
        requires
            ll >= 32768,
    ;
    assert(l2 * nn >= 4294967296int * l2 - 25770000381int * ll);
    assert(l2 * nn <= 4294967296int * l2 + 42949869565int * ll);
    assert(nn >= 4294967296int - 786437) by (nonlinear_arith)
        requires
            l2 * nn >= 4294967296int * l2 - 25770000381int * ll,
            l2 == ll * ll,
            32768 <= ll <= 65535,
    ;
    assert(nn <= 4294967296int + 1310725) by (nonlinear_arith)
        requires
            l2 * nn <= 4294967296int * l2 + 42949869565int * ll,
            l2 == ll * ll,
            32768 <= ll <= 65535,
    ;
    crate::fixed::lemma_tdiv_nonneg(nn, 65536);
    vstd::arithmetic::div_mod::lemma_div_is_ordered(4294180859int, nn, 65536);
    vstd::arithmetic::div_mod::lemma_div_is_ordered(nn, 4296278021int, 65536);
    assert(4294180859int / 65536int == 65523int) by (nonlinear_arith);
    assert(4296278021int / 65536int == 65556int) by (nonlinear_arith);
    let lsq = nn / 65536;
    assert(v3_len_sq(u) == lsq);
    assert(65523 <= lsq <= 65556);
    crate::fixed::lemma_sqrt_exists((lsq * 65536) as nat);
    let rr = crate::fixed::sqrt_nat((lsq * 65536) as nat) as int;
    assert(v3_len(u) == rr);
    assert(rr * rr <= lsq * 65536 < (rr + 1) * (rr + 1));
    assert(65520 <= rr <= 65552) by (nonlinear_arith)
        requires
            rr * rr <= lsq * 65536,
            lsq * 65536 < (rr + 1) * (rr + 1),
            65523 <= lsq <= 65556,
            rr >= 0,
    ;
}

/// Negating a vector leaves its squared length unchanged.
pub proof fn lemma_len_sq_neg(p: V3)
    requires
        v3_wf(p),
    ensures
        v3_len_sq(v3_neg(p)) == v3_len_sq(p),
{
    let np = v3_neg(p);
    assert(np.x == -p.x && np.y == -p.y && np.z == -p.z);
    assert((-p.x) * (-p.x) == p.x * p.x) by (nonlinear_arith);
    assert((-p.y) * (-p.y) == p.y * p.y) by (nonlinear_arith);
    assert((-p.z) * (-p.z) == p.z * p.z) by (nonlinear_arith);
    assert(dot_num(np, np) == dot_num(p, p));
}

/// A ball point, flipped when it points into the surface, so that the result
/// lies in the hemisphere of `normal` — and, being a ball point or its exact
/// negation, is never the zero vector.
pub fn random_in_hemisphere(rng: &mut rand::rngs::ThreadRng, normal: &Vec3) -> (r: Vec3)
    requires
        normal.wf(),
    ensures
        v3_dot(r@, normal@) >= 0,
        0 < v3_len_sq(r@) < SCALE as int,
        r.wf(),
{
    let in_unit_sphere = random_in_unit_sphere(rng);
    if dot(&in_unit_sphere, normal).gt(Fx::zero()) {
        in_unit_sphere
    } else {
        proof {
            lemma_dot_neg(in_unit_sphere@, normal@);
            lemma_len_sq_neg(in_unit_sphere@);
        }
        in_unit_sphere.neg()
    }
}

} // verus!
