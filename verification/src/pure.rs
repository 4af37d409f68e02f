//! The pure per-sample functions that `Fn1` / `Fn2` / `Fn3` modules and
//! the oscillators apply pointwise.  Waveforms take a normalized phase
//! in `[-1, 1)` spanning one period.  Every function is total and its
//! contract states its fixed-point formula exactly.

use crate::sample::{
    divi_spec, fx_add, fx_div, fx_div_spec, fx_divi, fx_mul, fx_mul_spec, fx_sub, phase_frac,
    sat, Sample, SCALE,
};
use crate::transcend::{exp2_fx, exp2_spec, pow_fx, pow_spec};
use vstd::math::abs;
use vstd::prelude::*;

verus! {

/// Half a unit.
pub const HALF: i64 = 0x8000_0000;

/// A quarter unit: the phase lead turning a sine into a cosine.
pub const QUARTER: i64 = 0x4000_0000;

/// The reference pitch (A above middle C) in fixed point.
pub const FREQ_A: i64 = 1889785610240;

/// Its MIDI note number in fixed point.
pub const MIDI_A: i64 = 296352743424;

/// Pure functions of one sample.
#[derive(Clone, Copy, PartialEq, Eq, Structural)]
pub enum UnaryFn {
    /// `1 / x`; zero at zero.
    Recip,
    /// Chebyshev polynomials: harmonic waveshapers.
    Cheb2,
    Cheb3,
    Cheb4,
    Cheb5,
    Cheb6,
    /// One period of a cosine per two units of phase.
    Cos,
    /// One period of a sine per two units of phase.
    Sin,
    Sine,
    /// Triangle wave: `1 - 2|x|`.
    Triangle,
    /// Round to the nearest whole number, halves away from zero.
    Round,
    /// Map `[-1, 1]` to `[0, 1]`.
    Unit,
    /// MIDI note number to frequency in hertz.
    Midi2Freq,
}

/// Pure functions of two samples.
#[derive(Clone, Copy, PartialEq, Eq, Structural)]
pub enum BinaryFn {
    Mul,
    Add,
    Sub,
    Div,
    /// `x` to the power `y`; zero for non-positive `x`.
    Pow,
    /// Snap `x` to the nearest multiple of `step`.
    Quantize,
    /// Rectangle wave on (phase, width): high while the unit phase is
    /// below the width.
    Rectangle,
}

/// Pure functions of three samples.
#[derive(Clone, Copy, PartialEq, Eq, Structural)]
pub enum TernaryFn {
    /// Map a `[-1, 1]` signal into `[lo, hi]`.
    Range,
}

/// Magnitude, saturated at the `i64` range.
pub open spec fn abs_spec(x: int) -> int {
    sat(abs(x) as int)
}

pub fn fx_abs(x: Sample) -> (r: Sample)
    ensures
        r == abs_spec(x as int),
{
    if x >= 0 {
        x
    } else if x == i64::MIN {
        i64::MAX
    } else {
        -x
    }
}

/// The half-wave parabola `4 v (1 - v)`: exact at the zero crossings
/// and at the peak.
pub open spec fn half_wave_spec(v: int) -> int {
    let p = fx_mul_spec(v, sat(SCALE - v));
    sat(sat(p + p) + sat(p + p))
}

fn half_wave(v: Sample) -> (r: Sample)
    ensures
        r == half_wave_spec(v as int),
{
    let p = fx_mul(v, fx_sub(SCALE, v));
    let p2 = fx_add(p, p);
    fx_add(p2, p2)
}

/// One period of a parabolic sine wave per unit of phase: positive
/// parabola on the first half period, its negation on the second.
pub open spec fn sine_spec(x: int) -> int {
    let u = phase_frac(x);
    if u < HALF {
        half_wave_spec(sat(u + u))
    } else {
        sat(-half_wave_spec(sat(sat(u + u) - SCALE)))
    }
}

pub fn sine_fx(x: Sample) -> (r: Sample)
    ensures
        r == sine_spec(x as int),
{
    let u = crate::sample::phase_frac_fx(x);
    if u < HALF {
        half_wave(fx_add(u, u))
    } else {
        let s = half_wave(fx_sub(fx_add(u, u), SCALE));
        fx_sub(0, s)
    }
}

/// Cosine: the sine led by a quarter period.
pub open spec fn cos_spec(x: int) -> int {
    sine_spec(sat(phase_frac(x) + QUARTER))
}

pub fn cos_fx(x: Sample) -> (r: Sample)
    ensures
        r == cos_spec(x as int),
{
    sine_fx(fx_add(crate::sample::phase_frac_fx(x), QUARTER))
}

/// One period of a triangle wave per unit of phase: from the trough up
/// to the peak at half a period and back.
pub open spec fn triangle_spec(x: int) -> int {
    let u = phase_frac(x);
    let d = if u >= HALF {
        u - HALF
    } else {
        HALF - u
    };
    sat(SCALE - sat(sat(d + d) + sat(d + d)))
}

pub fn triangle_fx(x: Sample) -> (r: Sample)
    ensures
        r == triangle_spec(x as int),
{
    let u = crate::sample::phase_frac_fx(x);
    let d = if u >= HALF {
        u - HALF
    } else {
        HALF - u
    };
    fx_sub(SCALE, fx_add(fx_add(d, d), fx_add(d, d)))
}

/// The Chebyshev recurrence: `T_{n+1}(x) = 2 x T_n(x) - T_{n-1}(x)`.
pub open spec fn cheb_next_spec(x: int, tn: int, tn1: int) -> int {
    let xt = fx_mul_spec(x, tn);
    sat(sat(xt + xt) - tn1)
}

fn cheb_next(x: Sample, tn: Sample, tn1: Sample) -> (r: Sample)
    ensures
        r == cheb_next_spec(x as int, tn as int, tn1 as int),
{
    let xt = fx_mul(x, tn);
    fx_sub(fx_add(xt, xt), tn1)
}

pub open spec fn cheb2_spec(x: int) -> int {
    cheb_next_spec(x, x, SCALE as int)
}

pub open spec fn cheb3_spec(x: int) -> int {
    cheb_next_spec(x, cheb2_spec(x), x)
}

pub open spec fn cheb4_spec(x: int) -> int {
    cheb_next_spec(x, cheb3_spec(x), cheb2_spec(x))
}

pub open spec fn cheb5_spec(x: int) -> int {
    cheb_next_spec(x, cheb4_spec(x), cheb3_spec(x))
}

pub open spec fn cheb6_spec(x: int) -> int {
    cheb_next_spec(x, cheb5_spec(x), cheb4_spec(x))
}

/// Round to the nearest whole number of units, halves away from zero.
pub open spec fn round_spec(x: int) -> int {
    if x >= 0 {
        sat(((x + HALF) / (SCALE as int)) * SCALE)
    } else {
        sat(-((((-x) + HALF) / (SCALE as int)) * SCALE))
    }
}

pub fn round_fx(x: Sample) -> (r: Sample)
    ensures
        r == round_spec(x as int),
{
    if x >= 0 {
        let u: u128 = x as u128 + HALF as u128;
        let q: u128 = u / SCALE as u128;
        let w: u128 = q * SCALE as u128;
        if w > i64::MAX as u128 {
            i64::MAX
        } else {
            w as i64
        }
    } else {
        let u: u128 = (-(x as i128)) as u128 + HALF as u128;
        let q: u128 = u / SCALE as u128;
        let w: u128 = q * SCALE as u128;
        if w >= 0x8000_0000_0000_0000u128 {
            i64::MIN
        } else {
            -(w as i64)
        }
    }
}

/// Map `[-1, 1]` to `[0, 1]`: `(x + 1) / 2`.
pub open spec fn unit_spec(x: int) -> int {
    divi_spec(sat(x + SCALE), 2)
}

pub fn unit_fx(x: Sample) -> (r: Sample)
    ensures
        r == unit_spec(x as int),
{
    fx_divi(fx_add(x, SCALE), 2)
}

/// MIDI note number to frequency: `440 * 2^((m - 69) / 12)`.
pub open spec fn midi2freq_spec(m: int) -> int {
    fx_mul_spec(FREQ_A as int, exp2_spec(divi_spec(sat(m - MIDI_A), 12)))
}

pub fn midi2freq_fx(m: Sample) -> (r: Sample)
    ensures
        r == midi2freq_spec(m as int),
{
    fx_mul(FREQ_A, exp2_fx(fx_divi(fx_sub(m, MIDI_A), 12)))
}

/// Snap `x` to the nearest multiple of `step`; identity when `step` is
/// zero.
pub open spec fn quantize_spec(x: int, step: int) -> int {
    if step == 0 {
        x
    } else {
        fx_mul_spec(round_spec(fx_div_spec(x, step)), step)
    }
}

pub fn quantize_fx(x: Sample, step: Sample) -> (r: Sample)
    ensures
        r == quantize_spec(x as int, step as int),
{
    if step == 0 {
        x
    } else {
        fx_mul(round_fx(fx_div(x, step)), step)
    }
}

/// Rectangle wave on (phase, width): high while the position within
/// the current period lies below the width.
pub open spec fn rectangle_spec(phase: int, width: int) -> int {
    if phase_frac(phase) < width {
        SCALE as int
    } else {
        -(SCALE as int)
    }
}

pub fn rectangle_fx(phase: Sample, width: Sample) -> (r: Sample)
    ensures
        r == rectangle_spec(phase as int, width as int),
{
    if crate::sample::phase_frac_fx(phase) < width {
        SCALE
    } else {
        -SCALE
    }
}

/// Map a `[-1, 1]` signal into `[lo, hi]`.
pub open spec fn range_spec(x: int, lo: int, hi: int) -> int {
    sat(lo + fx_mul_spec(unit_spec(x), sat(hi - lo)))
}

pub fn range_fx(x: Sample, lo: Sample, hi: Sample) -> (r: Sample)
    ensures
        r == range_spec(x as int, lo as int, hi as int),
{
    fx_add(lo, fx_mul(unit_fx(x), fx_sub(hi, lo)))
}

/// What a unary function computes.
pub open spec fn apply1_spec(f: UnaryFn, x: int) -> int {
    match f {
        UnaryFn::Recip => fx_div_spec(SCALE as int, x),
        UnaryFn::Cheb2 => cheb2_spec(x),
        UnaryFn::Cheb3 => cheb3_spec(x),
        UnaryFn::Cheb4 => cheb4_spec(x),
        UnaryFn::Cheb5 => cheb5_spec(x),
        UnaryFn::Cheb6 => cheb6_spec(x),
        UnaryFn::Cos => cos_spec(x),
        UnaryFn::Sin => sine_spec(x),
        UnaryFn::Sine => sine_spec(x),
        UnaryFn::Triangle => triangle_spec(x),
        UnaryFn::Round => round_spec(x),
        UnaryFn::Unit => unit_spec(x),
        UnaryFn::Midi2Freq => midi2freq_spec(x),
    }
}

pub fn apply1(f: UnaryFn, x: Sample) -> (r: Sample)
    ensures
        r == apply1_spec(f, x as int),
{
    match f {
        UnaryFn::Recip => fx_div(SCALE, x),
        UnaryFn::Cheb2 => cheb_next(x, x, SCALE),
        UnaryFn::Cheb3 => {
            let t2 = cheb_next(x, x, SCALE);
            cheb_next(x, t2, x)
        },
        UnaryFn::Cheb4 => {
            let t2 = cheb_next(x, x, SCALE);
            let t3 = cheb_next(x, t2, x);
            cheb_next(x, t3, t2)
        },
        UnaryFn::Cheb5 => {
            let t2 = cheb_next(x, x, SCALE);
            let t3 = cheb_next(x, t2, x);
            let t4 = cheb_next(x, t3, t2);
            cheb_next(x, t4, t3)
        },
        UnaryFn::Cheb6 => {
            let t2 = cheb_next(x, x, SCALE);
            let t3 = cheb_next(x, t2, x);
            let t4 = cheb_next(x, t3, t2);
            let t5 = cheb_next(x, t4, t3);
            cheb_next(x, t5, t4)
        },
        UnaryFn::Cos => cos_fx(x),
        UnaryFn::Sin => sine_fx(x),
        UnaryFn::Sine => sine_fx(x),
        UnaryFn::Triangle => triangle_fx(x),
        UnaryFn::Round => round_fx(x),
        UnaryFn::Unit => unit_fx(x),
        UnaryFn::Midi2Freq => midi2freq_fx(x),
    }
}

/// What a binary function computes.
pub open spec fn apply2_spec(f: BinaryFn, x: int, y: int) -> int {
    match f {
        BinaryFn::Mul => fx_mul_spec(x, y),
        BinaryFn::Add => sat(x + y),
        BinaryFn::Sub => sat(x - y),
        BinaryFn::Div => fx_div_spec(x, y),
        BinaryFn::Pow => pow_spec(x, y),
        BinaryFn::Quantize => quantize_spec(x, y),
        BinaryFn::Rectangle => rectangle_spec(x, y),
    }
}

pub fn apply2(f: BinaryFn, x: Sample, y: Sample) -> (r: Sample)
    ensures
        r == apply2_spec(f, x as int, y as int),
{
    match f {
        BinaryFn::Mul => fx_mul(x, y),
        BinaryFn::Add => fx_add(x, y),
        BinaryFn::Sub => fx_sub(x, y),
        BinaryFn::Div => fx_div(x, y),
        BinaryFn::Pow => pow_fx(x, y),
        BinaryFn::Quantize => quantize_fx(x, y),
        BinaryFn::Rectangle => rectangle_fx(x, y),
    }
}

/// What a ternary function computes.
pub open spec fn apply3_spec(f: TernaryFn, x: int, y: int, z: int) -> int {
    match f {
        TernaryFn::Range => range_spec(x, y, z),
    }
}

pub fn apply3(f: TernaryFn, x: Sample, y: Sample, z: Sample) -> (r: Sample)
    ensures
        r == apply3_spec(f, x as int, y as int, z as int),
{
    match f {
        TernaryFn::Range => range_fx(x, y, z),
    }
}

} // verus!
