//! Fixed-point sample arithmetic.
//!
//! A sample is a signed 64-bit integer holding a real value scaled by
//! `SCALE` (2^32).  All operations saturate at the `i64` range and
//! round quotients toward zero, and every operation's result is pinned
//! down exactly by its contract.

use vstd::arithmetic::div_mod::lemma_mod_multiples_vanish;
use vstd::math::abs;
use vstd::prelude::*;

verus! {

/// One audio sample: a real number scaled by `SCALE`.
pub type Sample = i64;

/// The fixed-point scale: `SCALE` represents the real number 1.
pub const SCALE: i64 = 0x1_0000_0000;

/// Saturate an unbounded integer into the `i64` range.
pub open spec fn sat(x: int) -> int {
    if x > i64::MAX {
        i64::MAX as int
    } else if x < i64::MIN {
        i64::MIN as int
    } else {
        x
    }
}

/// Integer division rounding toward zero, as hardware division does.
pub open spec fn tdiv(a: int, b: int) -> int
    recommends
        b != 0,
{
    if (a < 0) != (b < 0) {
        -((abs(a) / abs(b)) as int)
    } else {
        (abs(a) / abs(b)) as int
    }
}

/// The real value `a * b / SCALE` in fixed point, rounded toward zero
/// and saturated.
pub open spec fn fx_mul_spec(a: int, b: int) -> int {
    sat(tdiv(a * b, SCALE as int))
}

/// The real value `a / b` in fixed point (`a * SCALE / b` over the
/// integers), rounded toward zero and saturated; zero when `b` is zero.
pub open spec fn fx_div_spec(a: int, b: int) -> int {
    if b == 0 {
        0
    } else {
        sat(tdiv(a * (SCALE as int), b))
    }
}

/// Clamp a sign-and-magnitude integer into the `i64` range.
fn sat_signed(neg: bool, q: u128) -> (r: i64)
    ensures
        r as int == sat(if neg { -(q as int) } else { q as int }),
{
    if neg {
        if q >= 0x8000_0000_0000_0000u128 {
            i64::MIN
        } else {
            -(q as i64)
        }
    } else {
        if q > i64::MAX as u128 {
            i64::MAX
        } else {
            q as i64
        }
    }
}

/// Magnitude of an `i64`, exact even at `i64::MIN`.
fn magnitude(a: i64) -> (r: u128)
    ensures
        r as int == abs(a as int),
{
    let w: i128 = a as i128;
    if w < 0 {
        (-w) as u128
    } else {
        w as u128
    }
}

/// Saturating addition.
pub fn fx_add(a: Sample, b: Sample) -> (r: Sample)
    ensures
        r == sat(a + b),
{
    let s: i128 = a as i128 + b as i128;
    if s > i64::MAX as i128 {
        i64::MAX
    } else if s < i64::MIN as i128 {
        i64::MIN
    } else {
        s as i64
    }
}

/// Saturating subtraction.
pub fn fx_sub(a: Sample, b: Sample) -> (r: Sample)
    ensures
        r == sat(a - b),
{
    let s: i128 = a as i128 - b as i128;
    if s > i64::MAX as i128 {
        i64::MAX
    } else if s < i64::MIN as i128 {
        i64::MIN
    } else {
        s as i64
    }
}

/// Fixed-point product.
pub fn fx_mul(a: Sample, b: Sample) -> (r: Sample)
    ensures
        r == fx_mul_spec(a as int, b as int),
{
    let ua: u128 = magnitude(a);
    let ub: u128 = magnitude(b);
    assert(ua * ub <= 0x8000_0000_0000_0000u128 * 0x8000_0000_0000_0000u128)
        by (nonlinear_arith)
        requires
            ua <= 0x8000_0000_0000_0000u128,
            ub <= 0x8000_0000_0000_0000u128,
    ;
    let p: u128 = ua * ub;
    let q: u128 = p / (SCALE as u128);
    let neg: bool = (a < 0) != (b < 0);
    proof {
        lemma_magnitude_product(a as int, b as int, ua as int, ub as int, neg);
        assert(tdiv(a as int * b as int, SCALE as int) == if neg {
            -(q as int)
        } else {
            q as int
        });
    }
    sat_signed(neg, q)
}

/// Fixed-point quotient; zero when the divisor is zero.
pub fn fx_div(a: Sample, b: Sample) -> (r: Sample)
    ensures
        r == fx_div_spec(a as int, b as int),
{
    if b == 0 {
        return 0;
    }
    let ua: u128 = magnitude(a);
    let ub: u128 = magnitude(b);
    assert(ua * (SCALE as u128) <= 0x8000_0000_0000_0000u128 * 0x1_0000_0000u128)
        by (nonlinear_arith)
        requires
            ua <= 0x8000_0000_0000_0000u128,
    ;
    let p: u128 = ua * (SCALE as u128);
    let q: u128 = p / ub;
    let neg: bool = (a < 0) != (b < 0);
    proof {
        lemma_magnitude_product(a as int, SCALE as int, ua as int, SCALE as int, a < 0);
        assert(abs(a as int * SCALE as int) == ua as int * SCALE as int);
        assert(tdiv(a as int * SCALE as int, b as int) == if neg {
            -(q as int)
        } else {
            q as int
        });
    }
    sat_signed(neg, q)
}

/// Division by a plain integer (a frame count, a sample rate), rounded
/// toward zero; zero when the divisor is zero.
pub open spec fn divi_spec(a: int, b: int) -> int {
    if b == 0 {
        0
    } else {
        sat(tdiv(a, b))
    }
}

/// Divide a sample by a plain integer.
pub fn fx_divi(a: Sample, b: i64) -> (r: Sample)
    ensures
        r == divi_spec(a as int, b as int),
{
    if b == 0 {
        return 0;
    }
    let ua: u128 = magnitude(a);
    let ub: u128 = magnitude(b);
    let q: u128 = ua / ub;
    let neg: bool = (a < 0) != (b < 0);
    proof {
        assert(q <= ua);
        assert(tdiv(a as int, b as int) == if neg {
            -(q as int)
        } else {
            q as int
        });
    }
    sat_signed(neg, q)
}

/// Wrap an unbounded phase into the half-open interval `[-1, 1)` (in
/// fixed point: `[-SCALE, SCALE)`), identifying points two units apart.
pub open spec fn wrap2(t: int) -> int {
    (t + SCALE) % (2 * SCALE as int) - SCALE
}

/// Add a phase increment and wrap, exactly as `wrap2` says.
pub fn wrap_add(phi: Sample, dx: Sample) -> (r: Sample)
    ensures
        r == wrap2(phi + dx),
        -SCALE <= r < SCALE,
{
    let t: i128 = phi as i128 + dx as i128 + SCALE as i128;
    let shifted: i128 = t + 0x4_0000_0000_0000_0000i128;
    let u: u128 = shifted as u128;
    let m: u128 = u % 0x2_0000_0000u128;
    proof {
        lemma_mod_multiples_vanish(0x2_0000_0000int, t as int, 0x2_0000_0000int);
    }
    (m as i64) - SCALE
}

/// The position of a phase within one waveform period: the Euclidean
/// remainder by one unit, in `[0, 1)`.
pub open spec fn phase_frac(x: int) -> int {
    x % (SCALE as int)
}

/// Wrap a phase into `[0, 1)` (one waveform period).
pub fn phase_frac_fx(x: Sample) -> (r: Sample)
    ensures
        r == phase_frac(x as int),
        0 <= r < SCALE,
{
    let shifted: i128 = x as i128 + 0x4_0000_0000_0000_0000i128;
    let u: u128 = shifted as u128;
    let m: u128 = u % 0x1_0000_0000u128;
    proof {
        lemma_mod_multiples_vanish(0x4_0000_0000int, x as int, 0x1_0000_0000int);
    }
    m as i64
}

/// The product of two integers has the product of their magnitudes,
/// and is negative exactly when the signs differ (unless zero).
proof fn lemma_magnitude_product(a: int, b: int, ua: int, ub: int, neg: bool)
    requires
        ua == abs(a),
        ub == abs(b),
        neg == ((a < 0) != (b < 0)),
    ensures
        abs(a * b) == ua * ub,
        a * b == if neg {
            -(ua * ub)
        } else {
            ua * ub
        },
{
    assert(a * b == if neg {
        -(ua * ub)
    } else {
        ua * ub
    }) by (nonlinear_arith)
        requires
            ua == abs(a),
            ub == abs(b),
            neg == ((a < 0) != (b < 0)),
    ;
}

} // verus!
