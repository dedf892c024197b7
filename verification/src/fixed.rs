//! Fixed-point scalar arithmetic.
//!
//! A scalar is stored as an `i64` count of `1/SCALE` units and kept inside
//! `[-LIM, LIM]` by saturation, so every operation is total: out-of-range
//! results clamp to the limit, the analogue of an overflowing magnitude.
//! Each operation's contract gives the result exactly, as a function over
//! the mathematical integers of the operands' unit counts.
use vstd::prelude::*;

verus! {

/// Number of units per 1.0.
pub const SCALE: i64 = 65536;

/// Largest magnitude a scalar's unit count may take; stands in for infinity.
pub const LIM: i64 = 0x4000_0000_0000_0000;

/// Magnitude of an integer.
pub open spec fn absv(x: int) -> int {
    if x < 0 { -x } else { x }
}

/// Saturation of an integer into the representable range of unit counts.
pub open spec fn sat(x: int) -> int {
    if x > LIM as int {
        LIM as int
    } else if x < -(LIM as int) {
        -(LIM as int)
    } else {
        x
    }
}

/// Division truncating toward zero, as the hardware performs it.
pub open spec fn tdiv(n: int, d: int) -> int {
    let q = absv(n) / absv(d);
    if (n < 0) != (d < 0) {
        -q
    } else {
        q
    }
}

/// Unit count of a product: the ideal product of counts, rescaled and clamped.
pub open spec fn mul_bits(a: int, b: int) -> int {
    sat(tdiv(a * b, SCALE as int))
}

/// Unit count of a quotient. Division by zero saturates by the numerator's
/// sign, the analogue of the infinities a quotient of magnitudes overflows to.
pub open spec fn div_bits(a: int, b: int) -> int {
    if b == 0 {
        if a > 0 {
            LIM as int
        } else if a < 0 {
            -(LIM as int)
        } else {
            0
        }
    } else {
        sat(tdiv(a * SCALE, b))
    }
}

/// Whether `r` is the integer square root of `n`.
pub open spec fn is_sqrt(n: nat, r: nat) -> bool {
    r * r <= n < (r + 1) * (r + 1)
}

/// The integer square root: the unique `r` with `r * r <= n < (r + 1) * (r + 1)`.
pub open spec fn sqrt_nat(n: nat) -> nat {
    choose|r: nat| is_sqrt(n, r)
}

/// Unit count of a square root; a negative operand (only reachable through
/// rounding noise) yields zero.
pub open spec fn sqrt_bits(x: int) -> int {
    if x <= 0 {
        0
    } else {
        sqrt_nat((x * SCALE) as nat) as int
    }
}

/// The integer square root is unique, so any witness pins `sqrt_nat` down.
pub proof fn lemma_sqrt_nat_is(n: nat, r: nat)
    requires
        r * r <= n < (r + 1) * (r + 1),
    ensures
        sqrt_nat(n) == r,
{
    assert(is_sqrt(n, r));
    assert(exists|q: nat| is_sqrt(n, q));
    let c = sqrt_nat(n);
    assert(is_sqrt(n, c));
    if c != r {
        assert(false) by (nonlinear_arith)
            requires
                c * c <= n < (c + 1) * (c + 1),
                r * r <= n < (r + 1) * (r + 1),
                c != r,
        ;
    }
}

/// Truncating division is odd in its numerator.
pub proof fn lemma_tdiv_neg(n: int, d: int)
    requires
        d != 0,
    ensures
        tdiv(-n, d) == -tdiv(n, d),
{
}

/// Truncating division by a positive divisor is monotone in the numerator.
pub proof fn lemma_tdiv_mono(n1: int, n2: int, d: int)
    requires
        d > 0,
        n1 <= n2,
    ensures
        tdiv(n1, d) <= tdiv(n2, d),
{
    if 0 <= n1 {
        vstd::arithmetic::div_mod::lemma_div_is_ordered(n1, n2, d);
    } else if n2 < 0 {
        vstd::arithmetic::div_mod::lemma_div_is_ordered(-n2, -n1, d);
    } else {
        vstd::arithmetic::div_mod::lemma_div_pos_is_pos(-n1, d);
        vstd::arithmetic::div_mod::lemma_div_pos_is_pos(n2, d);
    }
}

/// Truncating division of a nonnegative numerator by a positive divisor is
/// plain Euclidean division, and nonnegative.
pub proof fn lemma_tdiv_nonneg(n: int, d: int)
    requires
        n >= 0,
        d > 0,
    ensures
        tdiv(n, d) == n / d,
        tdiv(n, d) >= 0,
{
    vstd::arithmetic::div_mod::lemma_div_pos_is_pos(n, d);
}

/// Fixed-point division by a nonnegative divisor is monotone in the dividend.
pub proof fn lemma_div_bits_mono(a1: int, a2: int, b: int)
    requires
        a1 <= a2,
        b >= 0,
    ensures
        div_bits(a1, b) <= div_bits(a2, b),
{
    if b > 0 {
        lemma_tdiv_mono(a1 * SCALE, a2 * SCALE, b);
    }
}

/// Every natural number has an integer square root.
pub proof fn lemma_sqrt_exists(n: nat)
    ensures
        is_sqrt(n, sqrt_nat(n)),
    decreases n,
{
    if n == 0 {
        assert(0nat * 0nat == 0) by (nonlinear_arith);
        assert((0nat + 1) * (0nat + 1) == 1) by (nonlinear_arith);
        assert(is_sqrt(0, 0));
        assert(exists|q: nat| is_sqrt(n, q));
    } else {
        lemma_sqrt_exists((n - 1) as nat);
        let r = sqrt_nat((n - 1) as nat);
        if (r + 1) * (r + 1) <= n {
            assert(is_sqrt(n, r + 1)) by (nonlinear_arith)
                requires
                    is_sqrt((n - 1) as nat, r),
                    (r + 1) * (r + 1) <= n,
            ;
            assert(exists|q: nat| is_sqrt(n, q));
        } else {
            assert(is_sqrt(n, r));
            assert(exists|q: nat| is_sqrt(n, q));
        }
    }
}

/// Scaling up by `SCALE` and truncating back down returns the operand.
pub proof fn lemma_tdiv_mul_cancel(y: int)
    ensures
        tdiv(SCALE as int * y, SCALE as int) == y,
{
    if y >= 0 {
        vstd::arithmetic::div_mod::lemma_div_multiples_vanish(y, SCALE as int);
        assert(absv(SCALE as int * y) == SCALE as int * y);
    } else {
        vstd::arithmetic::div_mod::lemma_div_multiples_vanish(-y, SCALE as int);
        assert(absv(SCALE as int * y) == SCALE as int * (-y));
    }
}

/// One is the unit of the fixed-point product, for in-range operands.
pub proof fn lemma_mul_bits_one(b: int)
    requires
        -(LIM as int) <= b <= LIM as int,
    ensures
        mul_bits(SCALE as int, b) == b,
{
    if b >= 0 {
        vstd::arithmetic::div_mod::lemma_div_multiples_vanish(b, SCALE as int);
        assert(absv(SCALE as int * b) == SCALE as int * b);
    } else {
        vstd::arithmetic::div_mod::lemma_div_multiples_vanish(-b, SCALE as int);
        assert(absv(SCALE as int * b) == SCALE as int * (-b));
    }
}

/// A product with one factor in `[0, 1]` shrinks the other nonnegative
/// factor: the rounded product stays in `[0, b]`.
pub proof fn lemma_mul_bits_unit_range(a: int, b: int)
    requires
        0 <= a <= SCALE as int,
        0 <= b <= SCALE as int,
    ensures
        0 <= mul_bits(a, b) <= b,
{
    assert(0 <= a * b <= SCALE as int * b) by (nonlinear_arith)
        requires
            0 <= a <= SCALE as int,
            0 <= b,
    ;
    lemma_tdiv_nonneg(a * b, SCALE as int);
    lemma_tdiv_mono(a * b, SCALE as int * b, SCALE as int);
    lemma_tdiv_mul_cancel(b);
}

/// The rounded product differs from the ideal one, rescaled, by less than
/// one representable unit, as long as the quotient does not saturate.
pub proof fn lemma_mul_bits_err(a: int, b: int)
    requires
        absv(a * b) <= LIM as int * SCALE as int,
    ensures
        absv(SCALE as int * mul_bits(a, b) - a * b) < SCALE as int,
{
    let n = a * b;
    let s = SCALE as int;
    vstd::arithmetic::div_mod::lemma_fundamental_div_mod(absv(n), s);
    vstd::arithmetic::div_mod::lemma_mod_bound(absv(n), s);
    vstd::arithmetic::div_mod::lemma_div_is_ordered(absv(n), LIM as int * s, s);
    vstd::arithmetic::div_mod::lemma_div_multiples_vanish(LIM as int, s);
    assert(s * (LIM as int) == LIM as int * s);
}

/// A fixed-point scalar.
#[derive(Clone, Copy, Debug, PartialEq, Eq)]
pub struct Fx {
    bits: i64,
}

impl View for Fx {
    type V = int;

    closed spec fn view(&self) -> int {
        self.bits as int
    }
}

/// Saturating narrowing of a wide unit count back into an `i64`.
fn sat_narrow(x: i128) -> (r: i64)
    ensures
        r as int == sat(x as int),
{
    if x > LIM as i128 {
        LIM
    } else if x < -(LIM as i128) {
        -LIM
    } else {
        x as i64
    }
}

/// Magnitude of an `i64`, total even at the minimum value.
fn abs64(x: i64) -> (r: u64)
    ensures
        r as int == absv(x as int),
{
    if x < 0 {
        (-(x as i128)) as u64
    } else {
        x as u64
    }
}

impl Fx {
    /// Whether the unit count lies in the representable range. Every
    /// constructor and operation of this module establishes it.
    pub open spec fn wf(self) -> bool {
        -(LIM as int) <= self@ <= LIM as int
    }

    pub fn zero() -> (r: Fx)
        ensures
            r@ == 0,
            r.wf(),
    {
        Fx { bits: 0 }
    }

    pub fn one() -> (r: Fx)
        ensures
            r@ == SCALE as int,
            r.wf(),
    {
        Fx { bits: SCALE }
    }

    /// The scalar with the given unit count, clamped into range.
    pub fn from_bits(b: i64) -> (r: Fx)
        ensures
            r@ == sat(b as int),
            r.wf(),
    {
        Fx { bits: sat_narrow(b as i128) }
    }

    /// The raw unit count.
    pub fn bits(self) -> (r: i64)
        ensures
            r as int == self@,
    {
        self.bits
    }

    /// The scalar representing the whole number `n`.
    pub fn from_num(n: i64) -> (r: Fx)
        ensures
            r@ == sat(n * SCALE),
            r.wf(),
    {
        Fx { bits: sat_narrow(n as i128 * SCALE as i128) }
    }

    pub fn add(self, o: Fx) -> (r: Fx)
        ensures
            r@ == sat(self@ + o@),
            r.wf(),
    {
        Fx { bits: sat_narrow(self.bits as i128 + o.bits as i128) }
    }

    pub fn sub(self, o: Fx) -> (r: Fx)
        ensures
            r@ == sat(self@ - o@),
            r.wf(),
    {
        Fx { bits: sat_narrow(self.bits as i128 - o.bits as i128) }
    }

    pub fn neg(self) -> (r: Fx)
        ensures
            r@ == sat(-self@),
            r.wf(),
    {
        Fx { bits: sat_narrow(-(self.bits as i128)) }
    }

    pub fn abs(self) -> (r: Fx)
        ensures
            r@ == sat(absv(self@)),
            r.wf(),
    {
        if self.bits < 0 {
            Fx { bits: sat_narrow(-(self.bits as i128)) }
        } else {
            Fx { bits: sat_narrow(self.bits as i128) }
        }
    }

    pub fn mul(self, o: Fx) -> (r: Fx)
        ensures
            r@ == mul_bits(self@, o@),
            r.wf(),
    {
        let a = self.bits;
        let b = o.bits;
        let neg = (a < 0) != (b < 0);
        let ua = abs64(a);
        let ub = abs64(b);
        proof {
            assert(ua as int * ub as int <= u64::MAX as int * u64::MAX as int)
                by (nonlinear_arith)
                requires
                    ua as int <= u64::MAX as int,
                    ub as int <= u64::MAX as int,
            ;
            let ai = a as int;
            let bi = b as int;
            assert(absv(ai * bi) == absv(ai) * absv(bi)) by (nonlinear_arith);
            assert(ai * bi < 0 <==> ((ai < 0) != (bi < 0)) && ai * bi != 0)
                by (nonlinear_arith);
            assert(absv(ai) == ua as int && absv(bi) == ub as int);
        }
        let m: u128 = ua as u128 * ub as u128;
        let q: u128 = m / (SCALE as u128);
        let mag: i64 = if q > LIM as u128 {
            LIM
        } else {
            q as i64
        };
        let bits = if neg {
            -mag
        } else {
            mag
        };
        Fx { bits }
    }

    pub fn div(self, o: Fx) -> (r: Fx)
        ensures
            r@ == div_bits(self@, o@),
            r.wf(),
    {
        let a = self.bits;
        let b = o.bits;
        if b == 0 {
            if a > 0 {
                return Fx { bits: LIM };
            } else if a < 0 {
                return Fx { bits: -LIM };
            } else {
                return Fx { bits: 0 };
            }
        }
        let neg = (a < 0) != (b < 0);
        let ua = abs64(a);
        let ub = abs64(b);
        proof {
            let ai = a as int;
            let si = SCALE as int;
            assert(absv(ai * si) == absv(ai) * si) by (nonlinear_arith)
                requires
                    si > 0,
            ;
            assert(ai * si < 0 <==> ai < 0) by (nonlinear_arith)
                requires
                    si > 0,
            ;
        }
        let m: u128 = ua as u128 * (SCALE as u128);
        let q: u128 = m / (ub as u128);
        let mag: i64 = if q > LIM as u128 {
            LIM
        } else {
            q as i64
        };
        let bits = if neg {
            -mag
        } else {
            mag
        };
        Fx { bits }
    }

    /// The square root, rounded down to the nearest representable value.
    pub fn sqrt(self) -> (r: Fx)
        ensures
            r@ == sqrt_bits(self@),
            r.wf(),
    {
        if self.bits <= 0 {
            return Fx { bits: 0 };
        }
        let m: u128 = self.bits as u128 * (SCALE as u128);
        let mut lo: u128 = 0;
        let mut hi: u128 = 0x1_0000_0000_0000_0000;
        proof {
            assert(hi * hi > m) by (nonlinear_arith)
                requires
                    hi == 0x1_0000_0000_0000_0000u128,
                    m < 0x1_0000_0000_0000_0000_0000_0000_0000_0000int,
            ;
        }
        while hi - lo > 1
            invariant
                lo < hi,
                hi <= 0x1_0000_0000_0000_0000u128,
                lo * lo <= m,
                m < hi * hi,
                m < 0x1_0000_0000_0000_0000_0000u128,
            decreases hi - lo,
        {
            let mid = lo + (hi - lo) / 2;
            proof {
                assert(mid * mid <= u128::MAX) by (nonlinear_arith)
                    requires
                        mid <= 0xffff_ffff_ffff_ffffu128,
                ;
            }
            if mid * mid <= m {
                lo = mid;
            } else {
                hi = mid;
            }
        }
        proof {
            assert(lo * lo <= m < (lo + 1) * (lo + 1));
            lemma_sqrt_nat_is(m as nat, lo as nat);
            assert(lo < 0x100_0000_0000u128) by (nonlinear_arith)
                requires
                    lo * lo <= m,
                    m < 0x1_0000_0000_0000_0000_0000u128,
            ;
        }
        Fx { bits: lo as i64 }
    }

    pub fn lt(self, o: Fx) -> (r: bool)
        ensures
            r == (self@ < o@),
    {
        self.bits < o.bits
    }

    pub fn le(self, o: Fx) -> (r: bool)
        ensures
            r == (self@ <= o@),
    {
        self.bits <= o.bits
    }

    pub fn gt(self, o: Fx) -> (r: bool)
        ensures
            r == (self@ > o@),
    {
        self.bits > o.bits
    }

    pub fn ge(self, o: Fx) -> (r: bool)
        ensures
            r == (self@ >= o@),
    {
        self.bits >= o.bits
    }

    /// The smaller of two scalars.
    pub fn min(self, o: Fx) -> (r: Fx)
        ensures
            r@ == (if self@ <= o@ { self@ } else { o@ }),
    {
        if self.bits <= o.bits {
            self
        } else {
            o
        }
    }

    /// The scalar forced into `[lo, hi]`.
    pub fn clamp(self, lo: Fx, hi: Fx) -> (r: Fx)
        ensures
            r@ == (if self@ < lo@ { lo@ } else if self@ > hi@ { hi@ } else { self@ }),
    {
        if self.bits < lo.bits {
            lo
        } else if self.bits > hi.bits {
            hi
        } else {
            self
        }
    }
}

/// The scalar whose unit count is `n / SCALE` truncated toward zero and
/// clamped into range: the landing point of a wide product sum.
pub fn wide_to_fx(n: i128) -> (r: Fx)
    ensures
        r@ == sat(tdiv(n as int, SCALE as int)),
        r.wf(),
{
    let neg = n < 0;
    let m: u128 = if n < 0 {
        ((-(n + 1)) as u128) + 1
    } else {
        n as u128
    };
    proof {
        assert(m as int == absv(n as int));
    }
    let q: u128 = m / (SCALE as u128);
    let mag: i64 = if q > LIM as u128 {
        LIM
    } else {
        q as i64
    };
    if neg {
        Fx { bits: -mag }
    } else {
        Fx { bits: mag }
    }
}

/// The scalar standing for the ratio `num / den`, truncated toward zero;
/// a zero denominator saturates by the numerator's sign.
pub fn from_frac(num: i64, den: i64) -> (r: Fx)
    ensures
        r@ == div_bits(num as int, den as int),
        r.wf(),
{
    if den == 0 {
        if num > 0 {
            return Fx::from_bits(LIM);
        } else if num < 0 {
            return Fx::from_bits(-LIM);
        } else {
            return Fx::zero();
        }
    }
    let neg = (num < 0) != (den < 0);
    let ua = abs64(num);
    let ub = abs64(den);
    proof {
        let ni = num as int;
        let si = SCALE as int;
        assert(absv(ni * si) == absv(ni) * si) by (nonlinear_arith)
            requires
                si > 0,
        ;
        assert(ni * si < 0 <==> ni < 0) by (nonlinear_arith)
            requires
                si > 0,
        ;
    }
    let m: u128 = ua as u128 * (SCALE as u128);
    let q: u128 = m / (ub as u128);
    let bits: i64 = if q > LIM as u128 {
        LIM
    } else {
        q as i64
    };
    if neg {
        Fx { bits: -bits }
    } else {
        Fx { bits }
    }
}

} // verus!
