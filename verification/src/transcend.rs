//! Base-two exponential and logarithm in fixed point, built from a
//! cubic on the fractional part plus exact binary shifts.  Each
//! function's contract states the computed formula exactly.

use crate::sample::{fx_add, fx_mul, fx_mul_spec, sat, Sample, SCALE};
use vstd::arithmetic::div_mod::{
    lemma_div_denominator, lemma_fundamental_div_mod_converse, lemma_multiply_divide_lt,
};
use vstd::arithmetic::power2::{lemma2_to64, lemma2_to64_rest, lemma_pow2_pos, pow2};
use vstd::prelude::*;

verus! {

/// Cubic coefficients for `2^t` on `t` in `[0, 1)`; they sum to one so
/// that the curve meets the next octave exactly.
pub const EXP2_C1: i64 = 2988438245;

pub const EXP2_C2: i64 = 967226635;

pub const EXP2_C3: i64 = 339302416;

/// Cubic coefficients for `log2(1 + t)` on `t` in `[0, 1)`;
/// `L1 - L2 + L3` is exactly one.
pub const LOG2_L1: i64 = 6196349318;

pub const LOG2_L2: i64 = 3097959911;

pub const LOG2_L3: i64 = 1196577889;

/// The fractional-part curve: a cubic through `1` at `0` and `2` at
/// `1`, approximating `2^(f / SCALE)`.
pub open spec fn exp2_frac_spec(f: int) -> int {
    let a = fx_mul_spec(f, EXP2_C1 as int);
    let f2 = fx_mul_spec(f, f);
    let b = fx_mul_spec(f2, EXP2_C2 as int);
    let f3 = fx_mul_spec(f2, f);
    let c = fx_mul_spec(f3, EXP2_C3 as int);
    sat(sat(sat(SCALE + a) + b) + c)
}

/// `2^(x / SCALE)` in fixed point: the fractional curve shifted by the
/// integer part, saturated above and flushed to zero far below.
pub open spec fn exp2_spec(x: int) -> int {
    let n = x / (SCALE as int);
    let f = x % (SCALE as int);
    let base = exp2_frac_spec(f);
    if n >= 0 {
        sat(base * (pow2(n as nat) as int))
    } else if n >= -34 {
        base / (pow2((-n) as nat) as int)
    } else {
        0
    }
}

fn exp2_frac(f: Sample) -> (r: Sample)
    requires
        0 <= f < SCALE,
    ensures
        r == exp2_frac_spec(f as int),
        SCALE <= r < 4 * SCALE,
{
    let a = fx_mul(f, EXP2_C1);
    let f2 = fx_mul(f, f);
    let b = fx_mul(f2, EXP2_C2);
    let f3 = fx_mul(f2, f);
    let c = fx_mul(f3, EXP2_C3);
    proof {
        assert(0 <= (f as int) * (EXP2_C1 as int) < (SCALE as int) * (SCALE as int))
            by (nonlinear_arith)
            requires
                0 <= f < SCALE,
                0 <= EXP2_C1 < SCALE,
        ;
        lemma_multiply_divide_lt((f as int) * (EXP2_C1 as int), SCALE as int, SCALE as int);
        assert(0 <= (f as int) * (f as int) < (SCALE as int) * (SCALE as int))
            by (nonlinear_arith)
            requires
                0 <= f < SCALE,
        ;
        lemma_multiply_divide_lt((f as int) * (f as int), SCALE as int, SCALE as int);
        assert(0 <= (f2 as int) * (EXP2_C2 as int) < (SCALE as int) * (SCALE as int))
            by (nonlinear_arith)
            requires
                0 <= f2 < SCALE,
                0 <= EXP2_C2 < SCALE,
        ;
        lemma_multiply_divide_lt((f2 as int) * (EXP2_C2 as int), SCALE as int, SCALE as int);
        assert(0 <= (f2 as int) * (f as int) < (SCALE as int) * (SCALE as int))
            by (nonlinear_arith)
            requires
                0 <= f2 < SCALE,
                0 <= f < SCALE,
        ;
        lemma_multiply_divide_lt((f2 as int) * (f as int), SCALE as int, SCALE as int);
        assert(0 <= (f3 as int) * (EXP2_C3 as int) < (SCALE as int) * (SCALE as int))
            by (nonlinear_arith)
            requires
                0 <= f3 < SCALE,
                0 <= EXP2_C3 < SCALE,
        ;
        lemma_multiply_divide_lt((f3 as int) * (EXP2_C3 as int), SCALE as int, SCALE as int);
    }
    let r = fx_add(fx_add(fx_add(SCALE, a), b), c);
    r
}

/// `2^(x / SCALE)` in fixed point.
pub fn exp2_fx(x: Sample) -> (r: Sample)
    ensures
        r == exp2_spec(x as int),
{
    // Euclidean split x == n * SCALE + f with 0 <= f < SCALE.
    let (n, f): (i64, i64) = if x >= 0 {
        let ux: u64 = x as u64;
        let q = ux / SCALE as u64;
        let rr = ux % SCALE as u64;
        (q as i64, rr as i64)
    } else {
        let ux: u64 = (-(x as i128)) as u64;
        let qq = ux / SCALE as u64;
        let rr = ux % SCALE as u64;
        if rr == 0 {
            (-(qq as i64), 0)
        } else {
            (-(qq as i64) - 1, SCALE - rr as i64)
        }
    };
    proof {
        lemma_fundamental_div_mod_converse(x as int, SCALE as int, n as int, f as int);
    }
    let base = exp2_frac(f);
    if n >= 0 {
        if n >= 63 {
            proof {
                lemma_pow2_pos(n as nat);
                assert(pow2(63) == 0x8000_0000_0000_0000) by {
                    lemma2_to64_rest();
                }
                assert(pow2(n as nat) >= pow2(63)) by {
                    if n > 63 {
                        vstd::arithmetic::power2::lemma_pow2_strictly_increases(
                            63,
                            n as nat,
                        );
                    }
                }
                assert(base * pow2(n as nat) >= SCALE * 0x8000_0000_0000_0000)
                    by (nonlinear_arith)
                    requires
                        base >= SCALE,
                        pow2(n as nat) >= 0x8000_0000_0000_0000,
                ;
            }
            return i64::MAX;
        }
        let mut val: u128 = base as u128;
        let mut k: u32 = 0;
        proof {
            lemma2_to64();
        }
        while k < n as u32
            invariant
                k <= n,
                0 <= n < 63,
                n == x as int / (SCALE as int),
                base == exp2_frac_spec(x as int % (SCALE as int)),
                SCALE <= base < 4 * SCALE,
                val == base * (pow2(k as nat) as int),
                val >= base,
            decreases n - k,
        {
            if val >= 0x8000_0000_0000_0000u128 {
                proof {
                    lemma_pow2_pos((n - k) as nat);
                    vstd::arithmetic::power2::lemma_pow2_adds(k as nat, (n - k) as nat);
                    assert(base * pow2(n as nat) == val * pow2((n - k) as nat))
                        by (nonlinear_arith)
                        requires
                            val == base * (pow2(k as nat) as int),
                            pow2(n as nat) == pow2(k as nat) * pow2((n - k) as nat),
                    ;
                    assert(val * pow2((n - k) as nat) >= val * 1) by (nonlinear_arith)
                        requires
                            pow2((n - k) as nat) >= 1,
                            val >= 0,
                    ;
                }
                return i64::MAX;
            }
            proof {
                assert(pow2((k + 1) as nat) == pow2(k as nat) * 2) by {
                    vstd::arithmetic::power2::lemma_pow2_adds(k as nat, 1);
                    lemma2_to64();
                }
                assert(base * (pow2(k as nat) * 2) == (base * pow2(k as nat)) * 2)
                    by (nonlinear_arith);
            }
            val = val * 2;
            k = k + 1;
        }
        if val > i64::MAX as u128 {
            i64::MAX
        } else {
            val as i64
        }
    } else {
        if n <= -35 {
            return 0;
        }
        let m = (-n) as u32;
        let mut val: u128 = base as u128;
        let mut k: u32 = 0;
        proof {
            lemma2_to64();
        }
        while k < m
            invariant
                k <= m,
                m <= 34,
                n < 0,
                m == -(n as int),
                n == x as int / (SCALE as int),
                base == exp2_frac_spec(x as int % (SCALE as int)),
                SCALE <= base < 4 * SCALE,
                val == base as int / (pow2(k as nat) as int),
                val <= base,
            decreases m - k,
        {
            proof {
                lemma_pow2_pos(k as nat);
                lemma_div_denominator(base as int, pow2(k as nat) as int, 2);
                assert(pow2((k + 1) as nat) == pow2(k as nat) * 2) by {
                    vstd::arithmetic::power2::lemma_pow2_adds(k as nat, 1);
                    lemma2_to64();
                }
            }
            val = val / 2;
            k = k + 1;
        }
        val as i64
    }
}

/// Count of doublings that bring `m` up into `[SCALE, 2 * SCALE)`.
pub open spec fn up_count(m: int) -> nat
    recommends
        m >= 1,
    decreases (if 1 <= m && m < SCALE { (SCALE - m) as nat } else { 0nat }),
{
    if m >= SCALE || m < 1 {
        0
    } else {
        1 + up_count(2 * m)
    }
}

/// The mantissa reached by those doublings.
pub open spec fn mant_up(m: int) -> int
    recommends
        m >= 1,
    decreases (if 1 <= m && m < SCALE { (SCALE - m) as nat } else { 0nat }),
{
    if m >= SCALE || m < 1 {
        m
    } else {
        mant_up(2 * m)
    }
}

/// Count of halvings that bring `m` down into `[SCALE, 2 * SCALE)`.
pub open spec fn down_count(m: int) -> nat
    decreases (if m >= 2 * SCALE { m as nat } else { 0nat }),
{
    if m < 2 * SCALE {
        0
    } else {
        1 + down_count(m / 2)
    }
}

/// The mantissa reached by those halvings.
pub open spec fn mant_down(m: int) -> int
    decreases (if m >= 2 * SCALE { m as nat } else { 0nat }),
{
    if m < 2 * SCALE {
        m
    } else {
        mant_down(m / 2)
    }
}

/// The fractional-part curve for the logarithm: a cubic through `0` at
/// `0` and `1` at `1`, approximating `log2(1 + t / SCALE)`.
pub open spec fn log2_frac_spec(t: int) -> int {
    let a = fx_mul_spec(t, LOG2_L1 as int);
    let t2 = fx_mul_spec(t, t);
    let b = fx_mul_spec(t2, LOG2_L2 as int);
    let t3 = fx_mul_spec(t2, t);
    let c = fx_mul_spec(t3, LOG2_L3 as int);
    sat(sat(sat(a - b)) + c)
}

/// `log2(x / SCALE)` in fixed point: the exponent of the leading bit
/// plus the fractional curve on the normalized mantissa.  Zero for
/// `x < 1`, where the true logarithm is not representable.
pub open spec fn log2_spec(x: int) -> int {
    if x < 1 {
        0
    } else if x < SCALE {
        let e = up_count(x);
        let m = mant_up(x);
        sat(-(e as int) * SCALE + log2_frac_spec(m - SCALE))
    } else {
        let e = down_count(x);
        let m = mant_down(x);
        sat((e as int) * SCALE + log2_frac_spec(m - SCALE))
    }
}

fn log2_frac(t: Sample) -> (r: Sample)
    requires
        0 <= t < SCALE,
    ensures
        r == log2_frac_spec(t as int),
{
    let a = fx_mul(t, LOG2_L1);
    let t2 = fx_mul(t, t);
    let b = fx_mul(t2, LOG2_L2);
    let t3 = fx_mul(t2, t);
    let c = fx_mul(t3, LOG2_L3);
    proof {
        assert(0 <= (t as int) * (LOG2_L1 as int) < (SCALE as int) * (2 * (SCALE as int)))
            by (nonlinear_arith)
            requires
                0 <= t < SCALE,
                0 <= LOG2_L1 < 2 * SCALE,
        ;
        lemma_multiply_divide_lt((t as int) * (LOG2_L1 as int), SCALE as int, 2 * (SCALE as int));
        assert(0 <= (t as int) * (t as int) < (SCALE as int) * (SCALE as int))
            by (nonlinear_arith)
            requires
                0 <= t < SCALE,
        ;
        lemma_multiply_divide_lt((t as int) * (t as int), SCALE as int, SCALE as int);
        assert(0 <= (t2 as int) * (LOG2_L2 as int) < (SCALE as int) * (SCALE as int))
            by (nonlinear_arith)
            requires
                0 <= t2 < SCALE,
                0 <= LOG2_L2 < SCALE,
        ;
        lemma_multiply_divide_lt((t2 as int) * (LOG2_L2 as int), SCALE as int, SCALE as int);
        assert(0 <= (t2 as int) * (t as int) < (SCALE as int) * (SCALE as int))
            by (nonlinear_arith)
            requires
                0 <= t2 < SCALE,
                0 <= t < SCALE,
        ;
        lemma_multiply_divide_lt((t2 as int) * (t as int), SCALE as int, SCALE as int);
        assert(0 <= (t3 as int) * (LOG2_L3 as int) < (SCALE as int) * (SCALE as int))
            by (nonlinear_arith)
            requires
                0 <= t3 < SCALE,
                0 <= LOG2_L3 < SCALE,
        ;
        lemma_multiply_divide_lt((t3 as int) * (LOG2_L3 as int), SCALE as int, SCALE as int);
    }
    let ab = crate::sample::fx_sub(a, b);
    let r = fx_add(ab, c);
    r
}

/// `log2(x / SCALE)` in fixed point.
pub fn log2_fx(x: Sample) -> (r: Sample)
    ensures
        r == log2_spec(x as int),
{
    if x < 1 {
        return 0;
    }
    if x < SCALE {
        let mut m: i64 = x;
        let mut e: u32 = 0;
        proof {
            lemma_up_count_bound(x as int);
        }
        while m < SCALE
            invariant
                1 <= m,
                m < 2 * SCALE,
                mant_up(m as int) == mant_up(x as int),
                up_count(m as int) + e == up_count(x as int),
                up_count(x as int) <= 32,
            decreases 2 * SCALE - m,
        {
            m = m * 2;
            e = e + 1;
        }
        proof {
            assert(mant_up(m as int) == m);
            assert(up_count(m as int) == 0);
        }
        proof {
            lemma_up_count_bound(x as int);
            assert((e as int) * SCALE <= 32 * SCALE) by (nonlinear_arith)
                requires
                    0 <= e <= 32,
            ;
        }
        let frac = log2_frac(m - SCALE);
        let whole: i64 = -((e as i64) * SCALE);
        crate::sample::fx_add(whole, frac)
    } else {
        let mut m: i64 = x;
        let mut e: u32 = 0;
        proof {
            lemma_down_count_bound(x as int);
        }
        while m >= 2 * SCALE
            invariant
                SCALE <= m,
                mant_down(m as int) == mant_down(x as int),
                down_count(m as int) + e == down_count(x as int),
                down_count(x as int) <= 32,
            decreases m,
        {
            m = ((m as u64) / 2) as i64;
            e = e + 1;
        }
        proof {
            assert(mant_down(m as int) == m);
            assert(down_count(m as int) == 0);
        }
        proof {
            lemma_down_count_bound(x as int);
            assert((e as int) * SCALE <= 32 * SCALE) by (nonlinear_arith)
                requires
                    0 <= e <= 32,
            ;
        }
        let frac = log2_frac(m - SCALE);
        let whole: i64 = (e as i64) * SCALE;
        crate::sample::fx_add(whole, frac)
    }
}

proof fn lemma_up_count_bound(m: int)
    requires
        m >= 1,
    ensures
        up_count(m) <= 32,
{
    if m < SCALE {
        assert(pow2(0) == 1) by {
            lemma2_to64();
        }
        lemma_up_count_pow(m, 0);
    }
}

/// Doubling from `m >= pow2(k)` reaches `SCALE = pow2(32)` within
/// `32 - k` steps.
proof fn lemma_up_count_pow(m: int, k: nat)
    requires
        k <= 32,
        m >= pow2(k),
    ensures
        up_count(m) <= 32 - k,
    decreases 32 - k,
{
    lemma_pow2_pos(k);
    if m >= SCALE || m < 1 {
    } else {
        assert(pow2(32) == SCALE) by {
            lemma2_to64();
        }
        assert(k < 32) by {
            if k == 32 {
                assert(pow2(32) == SCALE) by {
                    lemma2_to64();
                }
            }
        }
        vstd::arithmetic::power2::lemma_pow2_adds(k, 1);
        assert(pow2(1) == 2) by {
            lemma2_to64();
        }
        lemma_up_count_pow(2 * m, k + 1);
    }
}

proof fn lemma_down_count_bound(x: int)
    requires
        x <= i64::MAX,
    ensures
        down_count(x) <= 32,
{
    if x >= 2 * SCALE {
        assert(i64::MAX < pow2(63) * 2) by {
            lemma2_to64_rest();
        }
        lemma_down_count_pow(x, 0);
    }
}

/// Halving from below `pow2(63 - k) * 2` reaches `[SCALE, 2 * SCALE)`
/// within `32 - k` steps.
proof fn lemma_down_count_pow(m: int, k: nat)
    requires
        k <= 31,
        m < pow2((63 - k) as nat) * 2,
    ensures
        down_count(m) <= 32 - k,
    decreases 31 - k,
{
    if m < 2 * SCALE {
    } else {
        if k < 31 {
            assert(m / 2 < pow2((63 - (k + 1)) as nat) * 2) by {
                vstd::arithmetic::power2::lemma_pow2_adds((63 - k - 1) as nat, 1);
                lemma2_to64();
            }
            lemma_down_count_pow(m / 2, k + 1);
        } else {
            assert(pow2(32) == SCALE) by {
                lemma2_to64();
            }
            assert(false);
        }
    }
}

/// `x` raised to `y` for positive `x`: `2^(y * log2 x)`; zero for
/// non-positive `x`.
pub open spec fn pow_spec(x: int, y: int) -> int {
    if x < 1 {
        0
    } else {
        exp2_spec(fx_mul_spec(y, log2_spec(x)))
    }
}

pub fn pow_fx(x: Sample, y: Sample) -> (r: Sample)
    ensures
        r == pow_spec(x as int, y as int),
{
    if x < 1 {
        0
    } else {
        exp2_fx(fx_mul(y, log2_fx(x)))
    }
}

} // verus!
