//! Stereo panners using the equal-power law: channel weights are square
//! roots of complementary fractions, so the summed power stays level as
//! the position moves.
//!
//! `Pan1` pans a mono signal by a position; `Pan2` pans pre-separated
//! left/right inputs; `Pan3` applies cross-channel equal-power
//! weighting per channel index.

use crate::sample::{fx_mul, fx_mul_spec, sat, Sample, SCALE};
use vstd::arithmetic::div_mod::lemma_fundamental_div_mod;
use vstd::prelude::*;

verus! {

/// The exact integer square root: the largest `r` with `r * r <= n`.
pub open spec fn isqrt_spec(n: int) -> int
    decreases n,
{
    if n < 1 {
        0
    } else {
        let r = 2 * isqrt_spec(n / 4);
        if (r + 1) * (r + 1) <= n {
            r + 1
        } else {
            r
        }
    }
}

/// The recursive square root is exact.
pub proof fn lemma_isqrt_bounds(n: int)
    requires
        n >= 0,
    ensures
        isqrt_spec(n) >= 0,
        isqrt_spec(n) * isqrt_spec(n) <= n,
        n < (isqrt_spec(n) + 1) * (isqrt_spec(n) + 1),
    decreases n,
{
    if n < 1 {
    } else {
        let q = n / 4;
        lemma_fundamental_div_mod(n, 4);
        lemma_isqrt_bounds(q);
        let s = isqrt_spec(q);
        let r = 2 * s;
        assert(r * r <= 4 * q) by (nonlinear_arith)
            requires
                s * s <= q,
                r == 2 * s,
        ;
        assert(4 * q <= n);
        assert(n < (r + 2) * (r + 2)) by (nonlinear_arith)
            requires
                q < (s + 1) * (s + 1),
                r == 2 * s,
                n < 4 * q + 4,
        ;
        if (r + 1) * (r + 1) <= n {
        } else {
        }
    }
}

fn isqrt(n: u128) -> (r: u128)
    requires
        n < 0x1_0000_0000_0000_0000_0000_0000u128,
    ensures
        r == isqrt_spec(n as int),
        r * r <= n,
    decreases n,
{
    proof {
        lemma_isqrt_bounds(n as int);
    }
    if n < 1 {
        0
    } else {
        let s = isqrt(n / 4);
        proof {
            lemma_isqrt_bounds((n / 4) as int);
            assert(s * s <= n / 4);
            assert(s < 0x1_0000_0000_0000u128) by (nonlinear_arith)
                requires
                    s * s <= n / 4,
                    n / 4 < 0x1_0000_0000_0000_0000_0000_0000u128,
                    s >= 0,
            ;
        }
        let r = 2 * s;
        let r1 = r + 1;
        proof {
            assert(r1 * r1 < 0x4_0000_0000_0000_0000_0000_0000_0000u128) by (nonlinear_arith)
                requires
                    r1 <= 0x2_0000_0000_0000u128,
            ;
        }
        if r1 * r1 <= n {
            r1
        } else {
            r
        }
    }
}

/// The square root of a non-negative sample, in fixed point; zero for
/// non-positive inputs.
pub open spec fn sqrt_fx_spec(v: int) -> int {
    if v < 1 {
        0
    } else {
        isqrt_spec(v * SCALE)
    }
}

pub fn sqrt_fx(v: Sample) -> (r: Sample)
    ensures
        r == sqrt_fx_spec(v as int),
{
    if v < 1 {
        return 0;
    }
    assert((v as u128) * (SCALE as u128) < 0x1_0000_0000_0000_0000_0000_0000u128)
        by (nonlinear_arith)
        requires
            v as u128 <= 0x8000_0000_0000_0000u128,
            SCALE as u128 <= 0x1_0000_0000u128,
    ;
    let n: u128 = (v as u128) * (SCALE as u128);
    let r = isqrt(n);
    proof {
        assert(r < 0x1_0000_0000_0000u128) by (nonlinear_arith)
            requires
                r * r <= n,
                n < 0x1_0000_0000_0000_0000_0000_0000u128,
                r >= 0,
        ;
    }
    r as i64
}

/// One unit clamped from above: `min(1, x)`.
pub open spec fn clamp_one(x: int) -> int {
    if x > SCALE {
        SCALE as int
    } else {
        x
    }
}

/// The left weight of the equal-power law: `sqrt((1 - p) / 2)`.
pub open spec fn pan_left_weight(p: int) -> int {
    sqrt_fx_spec(crate::sample::divi_spec(sat(SCALE - p), 2))
}

/// The right weight of the equal-power law: `sqrt((1 + p) / 2)`.
pub open spec fn pan_right_weight(p: int) -> int {
    sqrt_fx_spec(crate::sample::divi_spec(sat(SCALE + p), 2))
}

fn pan_weights(p: Sample) -> (r: (Sample, Sample))
    ensures
        r.0 == pan_left_weight(p as int),
        r.1 == pan_right_weight(p as int),
{
    let wl = sqrt_fx(crate::sample::fx_divi(crate::sample::fx_sub(SCALE, p), 2));
    let wr = sqrt_fx(crate::sample::fx_divi(crate::sample::fx_add(SCALE, p), 2));
    (wl, wr)
}

/// Write a stereo pair into the first two output channels, leaving any
/// further channels untouched.
pub open spec fn stereo_out(output: Seq<Sample>, l: Sample, r: Sample) -> Seq<Sample> {
    if output.len() >= 2 {
        output.update(0, l).update(1, r)
    } else if output.len() == 1 {
        output.update(0, l)
    } else {
        output
    }
}

pub struct Pan1 {
    pub output: Vec<Sample>,
}

#[verifier::ext_equal]
pub struct Pan1View {
    pub output: Seq<Sample>,
}

impl View for Pan1 {
    type V = Pan1View;

    open spec fn view(&self) -> Pan1View {
        Pan1View { output: self.output@ }
    }
}

impl Pan1View {
    pub open spec fn out_spec(self) -> Seq<Sample> {
        self.output
    }

    /// Inputs: signal, position.
    pub open spec fn step_spec(self, input: Seq<Sample>) -> Pan1View {
        let x = input[0] as int;
        let p = input[1] as int;
        Pan1View {
            output: stereo_out(
                self.output,
                fx_mul_spec(x, pan_left_weight(p)) as Sample,
                fx_mul_spec(x, pan_right_weight(p)) as Sample,
            ),
        }
    }
}

impl Pan1 {
    pub fn new(channels: u8) -> (r: Pan1)
        ensures
            r@.out_spec() == Seq::new(channels as nat, |c: int| 0i64),
    {
        let r = Pan1 { output: vec![0i64; channels as usize] };
        proof {
            assert(r@.out_spec() =~= Seq::new(channels as nat, |c: int| 0i64));
        }
        r
    }

    pub fn inputs(&self) -> (r: u8)
        ensures
            r == 2,
    {
        2
    }

    pub fn output(&self) -> (r: &Vec<Sample>)
        ensures
            r@ == self@.out_spec(),
    {
        &self.output
    }

    pub fn sample(&mut self, input: &[Sample])
        requires
            input@.len() >= 2 * old(self)@.output.len(),
        ensures
            final(self)@ == old(self)@.step_spec(input@),
    {
        if self.output.len() == 0 {
            proof {
                assert(self@ =~= old(self)@.step_spec(input@));
            }
            return ;
        }
        let x = input[0];
        let p = input[1];
        let (wl, wr) = pan_weights(p);
        let l = fx_mul(x, wl);
        let r = fx_mul(x, wr);
        if self.output.len() >= 1 {
            self.output.set(0, l);
        }
        if self.output.len() >= 2 {
            self.output.set(1, r);
        }
        proof {
            assert(self@ =~= old(self)@.step_spec(input@));
        }
    }
}

pub struct Pan2 {
    pub output: Vec<Sample>,
}

#[verifier::ext_equal]
pub struct Pan2View {
    pub output: Seq<Sample>,
}

impl View for Pan2 {
    type V = Pan2View;

    open spec fn view(&self) -> Pan2View {
        Pan2View { output: self.output@ }
    }
}

impl Pan2View {
    pub open spec fn out_spec(self) -> Seq<Sample> {
        self.output
    }

    /// Inputs: left, right, position.
    pub open spec fn step_spec(self, input: Seq<Sample>) -> Pan2View {
        let l = input[0] as int;
        let r = input[1] as int;
        let p = input[2] as int;
        Pan2View {
            output: stereo_out(
                self.output,
                fx_mul_spec(l, pan_left_weight(p)) as Sample,
                fx_mul_spec(r, pan_right_weight(p)) as Sample,
            ),
        }
    }
}

impl Pan2 {
    pub fn new(channels: u8) -> (r: Pan2)
        ensures
            r@.out_spec() == Seq::new(channels as nat, |c: int| 0i64),
    {
        let r = Pan2 { output: vec![0i64; channels as usize] };
        proof {
            assert(r@.out_spec() =~= Seq::new(channels as nat, |c: int| 0i64));
        }
        r
    }

    pub fn inputs(&self) -> (r: u8)
        ensures
            r == 3,
    {
        3
    }

    pub fn output(&self) -> (r: &Vec<Sample>)
        ensures
            r@ == self@.out_spec(),
    {
        &self.output
    }

    pub fn sample(&mut self, input: &[Sample])
        requires
            input@.len() >= 3 * old(self)@.output.len(),
        ensures
            final(self)@ == old(self)@.step_spec(input@),
    {
        if self.output.len() == 0 {
            proof {
                assert(self@ =~= old(self)@.step_spec(input@));
            }
            return ;
        }
        let l_in = input[0];
        let r_in = input[1];
        let p = input[2];
        let (wl, wr) = pan_weights(p);
        let l = fx_mul(l_in, wl);
        let r = fx_mul(r_in, wr);
        if self.output.len() >= 1 {
            self.output.set(0, l);
        }
        if self.output.len() >= 2 {
            self.output.set(1, r);
        }
        proof {
            assert(self@ =~= old(self)@.step_spec(input@));
        }
    }
}

pub struct Pan3 {
    pub output: Vec<Sample>,
}

#[verifier::ext_equal]
pub struct Pan3View {
    pub output: Seq<Sample>,
}

impl View for Pan3 {
    type V = Pan3View;

    open spec fn view(&self) -> Pan3View {
        Pan3View { output: self.output@ }
    }
}

/// Pan3's weighting for a channel index: left output mixes the left
/// input at `sqrt(min(1, 1 - p))` with the right at `sqrt(-p)`, the
/// right output mirrors it; further channels fall silent.
pub open spec fn pan3_value(channel: int, l: int, r: int, p: int) -> int {
    if channel == 0 {
        sat(
            fx_mul_spec(l, sqrt_fx_spec(clamp_one(sat(SCALE - p)))) + fx_mul_spec(
                r,
                sqrt_fx_spec(sat(-p)),
            ),
        )
    } else if channel == 1 {
        sat(
            fx_mul_spec(l, sqrt_fx_spec(p)) + fx_mul_spec(
                r,
                sqrt_fx_spec(clamp_one(sat(SCALE + p))),
            ),
        )
    } else {
        0
    }
}

impl Pan3View {
    pub open spec fn out_spec(self) -> Seq<Sample> {
        self.output
    }

    /// Inputs per channel: left, right, position.
    pub open spec fn step_spec(self, input: Seq<Sample>) -> Pan3View {
        Pan3View {
            output: Seq::new(
                self.output.len(),
                |c: int| pan3_value(
                    c,
                    input[3 * c] as int,
                    input[3 * c + 1] as int,
                    input[3 * c + 2] as int,
                ) as Sample,
            ),
        }
    }
}

impl Pan3 {
    pub fn new(channels: u8) -> (r: Pan3)
        ensures
            r@.out_spec() == Seq::new(channels as nat, |c: int| 0i64),
    {
        let r = Pan3 { output: vec![0i64; channels as usize] };
        proof {
            assert(r@.out_spec() =~= Seq::new(channels as nat, |c: int| 0i64));
        }
        r
    }

    pub fn inputs(&self) -> (r: u8)
        ensures
            r == 3,
    {
        3
    }

    pub fn output(&self) -> (r: &Vec<Sample>)
        ensures
            r@ == self@.out_spec(),
    {
        &self.output
    }

    pub fn sample(&mut self, input: &[Sample])
        requires
            input@.len() >= 3 * old(self)@.output.len(),
        ensures
            final(self)@ == old(self)@.step_spec(input@),
    {
        let channels: usize = self.output.len();
        let avail: usize = input.len();
        let mut c: usize = 0;
        while c < channels
            invariant
                c <= channels,
                self.output@.len() == channels,
                input@.len() >= 3 * channels,
                avail == input@.len(),
                forall|j: int|
                    0 <= j < c ==> self.output@[j] == pan3_value(
                        j,
                        input@[3 * j] as int,
                        input@[3 * j + 1] as int,
                        input@[3 * j + 2] as int,
                    ),
            decreases channels - c,
        {
            let l = input[3 * c];
            let r = input[3 * c + 1];
            let p = input[3 * c + 2];
            let v: Sample = if c == 0 {
                let wl = sqrt_fx(clamp_one_exec(crate::sample::fx_sub(SCALE, p)));
                let wr = sqrt_fx(crate::sample::fx_sub(0, p));
                crate::sample::fx_add(fx_mul(l, wl), fx_mul(r, wr))
            } else if c == 1 {
                let wl = sqrt_fx(p);
                let wr = sqrt_fx(clamp_one_exec(crate::sample::fx_add(SCALE, p)));
                crate::sample::fx_add(fx_mul(l, wl), fx_mul(r, wr))
            } else {
                0
            };
            self.output.set(c, v);
            c = c + 1;
        }
        proof {
            assert(self@ =~= old(self)@.step_spec(input@));
        }
    }
}

fn clamp_one_exec(x: Sample) -> (r: Sample)
    ensures
        r == clamp_one(x as int),
{
    if x > SCALE {
        SCALE
    } else {
        x
    }
}

} // verus!
