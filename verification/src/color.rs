//! Emission of pixel colors as PPM text: average the accumulated samples,
//! gamma-correct, clamp, quantize to 8-bit channels and append one ASCII
//! line per pixel to a byte sink.
use vstd::prelude::*;
use crate::fixed::{Fx, SCALE, tdiv, mul_bits, div_bits, sqrt_bits, from_frac, lemma_tdiv_mono,
    lemma_tdiv_nonneg};
pub use crate::vector::Vec3 as Color;
use crate::vector::V3;

verus! {

/// The decimal digits of `n`, as ASCII bytes.
pub open spec fn dec_of(n: nat) -> Seq<u8>
    decreases n,
{
    if n < 10 {
        seq![(n + 48) as u8]
    } else {
        dec_of(n / 10).push((n % 10 + 48) as u8)
    }
}

/// Appends the decimal digits of `n` to the sink.
pub fn push_dec(out: &mut Vec<u8>, n: u64)
    ensures
        final(out)@ == old(out)@ + dec_of(n as nat),
    decreases n,
{
    if n >= 10 {
        push_dec(out, n / 10);
    }
    let digit: u8 = (n % 10) as u8 + 48;
    out.push(digit);
    proof {
        assert(out@ =~= old(out)@ + dec_of(n as nat));
    }
}

/// The quantized 8-bit value of one channel holding `x`, summed over
/// `samples` rays: the average is gamma-2 corrected, clamped to
/// `[0, 0.999]`, scaled by 255.99 and truncated.
pub open spec fn quant(x: int, samples: int) -> int {
    let scale = div_bits(1, samples);
    let g = sqrt_bits(mul_bits(scale, x));
    let hi = div_bits(999, 1000);
    let cl = if g < 0 {
        0
    } else if g > hi {
        hi
    } else {
        g
    };
    tdiv(mul_bits(cl, div_bits(25599, 100)), SCALE as int)
}

/// The PPM text line of one pixel: three quantized channels, space
/// separated, newline terminated.
pub open spec fn color_line(c: V3, samples: int) -> Seq<u8> {
    dec_of(quant(c.x, samples) as nat) + seq![32u8]
        + dec_of(quant(c.y, samples) as nat) + seq![32u8]
        + dec_of(quant(c.z, samples) as nat) + seq![10u8]
}

/// Quantizes one channel to its 8-bit value, exactly as `quant` states.
fn channel_byte(x: Fx, num_samples: u16) -> (r: u8)
    requires
        num_samples >= 1,
    ensures
        r as int == quant(x@, num_samples as int),
{
    let scale = from_frac(1, num_samples as i64);
    let g = scale.mul(x).sqrt();
    let hi = from_frac(999, 1000);
    let cl = g.clamp(Fx::zero(), hi);
    let f = from_frac(25599, 100);
    let q = cl.mul(f);
    proof {
        assert(999int * 65536int == 65470464int) by (nonlinear_arith);
        assert(65470464int / 1000int == 65470int) by (nonlinear_arith);
        lemma_tdiv_nonneg(65470464, 1000);
        assert(hi@ == 65470);
        assert(25599int * 65536int == 1677656064int) by (nonlinear_arith);
        assert(1677656064int / 100int == 16776560int) by (nonlinear_arith);
        lemma_tdiv_nonneg(1677656064, 100);
        assert(f@ == 16776560);
        assert(0 <= cl@ <= 65470);
        assert(cl@ * 16776560 <= 65470int * 16776560int);
        assert(cl@ * 16776560 >= 0);
        assert(65470int * 16776560int == 1098361383200int) by (nonlinear_arith);
        lemma_tdiv_mono(cl@ * 16776560, 1098361383200int, 65536);
        lemma_tdiv_nonneg(cl@ * 16776560, 65536);
        assert(1098361383200int / 65536int == 16759664int) by (nonlinear_arith);
        assert(0 <= q@ <= 16759664);
        lemma_tdiv_mono(q@, 16759664int, 65536);
        lemma_tdiv_nonneg(q@, 65536);
        assert(16759664int / 65536int == 255int) by (nonlinear_arith);
        assert(0 <= tdiv(q@, SCALE as int) <= 255);
    }
    let b: u64 = (q.bits() as u64) / 65536;
    b as u8
}

/// Writes the translated `[0, 255]` value of each component of `color`,
/// averaged over `num_samples` samples, as one PPM text line appended to
/// `out`.
pub fn write_color(out: &mut Vec<u8>, color: &Color, num_samples: u16)
    requires
        num_samples >= 1,
    ensures
        final(out)@ == old(out)@ + color_line(color@, num_samples as int),
{
    let r = channel_byte(color.x, num_samples);
    let g = channel_byte(color.y, num_samples);
    let b = channel_byte(color.z, num_samples);
    push_dec(out, r as u64);
    out.push(32);
    push_dec(out, g as u64);
    out.push(32);
    push_dec(out, b as u64);
    out.push(10);
    proof {
        assert(out@ =~= old(out)@ + color_line(color@, num_samples as int));
    }
}

/// The PPM header for an image of the given size: `P3`, the dimensions, and
/// the maximum channel value 255.
pub open spec fn ppm_header_bytes(width: nat, height: nat) -> Seq<u8> {
    seq![80u8, 51u8, 10u8] + dec_of(width) + seq![32u8] + dec_of(height) + seq![10u8]
        + dec_of(255) + seq![10u8]
}

/// Appends the PPM header to the sink.
pub fn ppm_header(out: &mut Vec<u8>, width: u16, height: u16)
    ensures
        final(out)@ == old(out)@ + ppm_header_bytes(width as nat, height as nat),
{
    out.push(80);
    out.push(51);
    out.push(10);
    push_dec(out, width as u64);
    out.push(32);
    push_dec(out, height as u64);
    out.push(10);
    push_dec(out, 255);
    out.push(10);
    proof {
        assert(out@ =~= old(out)@ + ppm_header_bytes(width as nat, height as nat));
    }
}

} // verus!
