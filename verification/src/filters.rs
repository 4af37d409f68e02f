//! One-pole low-pass and high-pass filters.
//!
//! With `k = 2 * pi * frequency / sample_rate`:
//! low-pass:  `y <- y + (k / (k + 1)) * (x - y)`;
//! high-pass: `y <- (1 / (k + 1)) * (y + x - x_prev)`.
//!
//! Sources to connect: input, cut-off frequency.

use crate::sample::{
    divi_spec, fx_add, fx_div, fx_div_spec, fx_mul, fx_mul_spec, fx_sub, sat, Sample, SCALE,
};
use vstd::prelude::*;

verus! {

/// Two pi in fixed point.
pub const TAU: i64 = 26986075409;

/// `2 * pi / sample_rate`: the angular step of one frame.
pub open spec fn angular_period(rate: int) -> int {
    divi_spec(TAU as int, rate)
}

/// One step of the one-pole low-pass filter.
pub open spec fn lpf_next(y: int, x: int, f: int, sap: int) -> int {
    let k = fx_mul_spec(f, sap);
    let a = fx_div_spec(k, sat(k + SCALE));
    sat(y + fx_mul_spec(a, sat(x - y)))
}

/// One step of the one-pole high-pass filter.
pub open spec fn hpf_next(y: int, x: int, x_prev: int, f: int, sap: int) -> int {
    let k = fx_mul_spec(f, sap);
    let a = fx_div_spec(SCALE as int, sat(k + SCALE));
    fx_mul_spec(a, sat(sat(y + x) - x_prev))
}

pub struct LPF {
    pub output: Vec<Sample>,
    pub sample_angular_period: Sample,
}

#[verifier::ext_equal]
pub struct LPFView {
    pub output: Seq<Sample>,
    pub sample_angular_period: int,
}

impl View for LPF {
    type V = LPFView;

    open spec fn view(&self) -> LPFView {
        LPFView {
            output: self.output@,
            sample_angular_period: self.sample_angular_period as int,
        }
    }
}

impl LPFView {
    pub open spec fn out_spec(self) -> Seq<Sample> {
        self.output
    }

    pub open spec fn step_spec(self, input: Seq<Sample>) -> LPFView {
        LPFView {
            output: Seq::new(
                self.output.len(),
                |c: int| lpf_next(
                    self.output[c] as int,
                    input[2 * c] as int,
                    input[2 * c + 1] as int,
                    self.sample_angular_period,
                ) as Sample,
            ),
            ..self
        }
    }
}

impl LPF {
    pub fn new(channels: u8, sample_rate: u32) -> (r: LPF)
        ensures
            r@.out_spec() == Seq::new(channels as nat, |c: int| 0i64),
            r@.sample_angular_period == angular_period(sample_rate as int),
    {
        let sap = crate::sample::fx_divi(TAU, sample_rate as i64);
        let r = LPF { output: vec![0i64; channels as usize], sample_angular_period: sap };
        proof {
            assert(r@.out_spec() =~= Seq::new(channels as nat, |c: int| 0i64));
        }
        r
    }

    pub fn inputs(&self) -> (r: u8)
        ensures
            r == 2,
    {
        2
    }

    pub fn output(&self) -> (r: &Vec<Sample>)
        ensures
            r@ == self@.out_spec(),
    {
        &self.output
    }

    pub fn sample(&mut self, input: &[Sample])
        requires
            input@.len() >= 2 * old(self)@.output.len(),
        ensures
            final(self)@ == old(self)@.step_spec(input@),
    {
        let channels: usize = self.output.len();
        let avail: usize = input.len();
        let mut c: usize = 0;
        while c < channels
            invariant
                c <= channels,
                self.output@.len() == channels,
                input@.len() >= 2 * channels,
                avail == input@.len(),
                self.sample_angular_period == old(self).sample_angular_period,
                forall|j: int|
                    c <= j < channels ==> self.output@[j] == old(self).output@[j],
                forall|j: int|
                    0 <= j < c ==> self.output@[j] == lpf_next(
                        old(self).output@[j] as int,
                        input@[2 * j] as int,
                        input@[2 * j + 1] as int,
                        old(self)@.sample_angular_period,
                    ),
            decreases channels - c,
        {
            let x = input[2 * c];
            let f = input[2 * c + 1];
            let y = self.output[c];
            let k = fx_mul(f, self.sample_angular_period);
            let a = fx_div(k, fx_add(k, SCALE));
            let v = fx_add(y, fx_mul(a, fx_sub(x, y)));
            self.output.set(c, v);
            c = c + 1;
        }
        proof {
            assert(self@ =~= old(self)@.step_spec(input@));
        }
    }
}

pub struct HPF {
    pub output: Vec<Sample>,
    pub sample_angular_period: Sample,
    pub x_prime: Vec<Sample>,
}

#[verifier::ext_equal]
pub struct HPFView {
    pub output: Seq<Sample>,
    pub sample_angular_period: int,
    pub x_prime: Seq<Sample>,
}

impl View for HPF {
    type V = HPFView;

    open spec fn view(&self) -> HPFView {
        HPFView {
            output: self.output@,
            sample_angular_period: self.sample_angular_period as int,
            x_prime: self.x_prime@,
        }
    }
}

impl HPFView {
    pub open spec fn wf_spec(self) -> bool {
        self.x_prime.len() == self.output.len()
    }

    pub open spec fn out_spec(self) -> Seq<Sample> {
        self.output
    }

    pub open spec fn step_spec(self, input: Seq<Sample>) -> HPFView {
        HPFView {
            output: Seq::new(
                self.output.len(),
                |c: int| hpf_next(
                    self.output[c] as int,
                    input[2 * c] as int,
                    self.x_prime[c] as int,
                    input[2 * c + 1] as int,
                    self.sample_angular_period,
                ) as Sample,
            ),
            x_prime: Seq::new(self.output.len(), |c: int| input[2 * c]),
            ..self
        }
    }
}

impl HPF {
    pub fn new(channels: u8, sample_rate: u32) -> (r: HPF)
        ensures
            r@.wf_spec(),
            r@.out_spec() == Seq::new(channels as nat, |c: int| 0i64),
            r@.x_prime == Seq::new(channels as nat, |c: int| 0i64),
            r@.sample_angular_period == angular_period(sample_rate as int),
    {
        let sap = crate::sample::fx_divi(TAU, sample_rate as i64);
        let r = HPF {
            output: vec![0i64; channels as usize],
            sample_angular_period: sap,
            x_prime: vec![0i64; channels as usize],
        };
        proof {
            assert(r@.out_spec() =~= Seq::new(channels as nat, |c: int| 0i64));
            assert(r@.x_prime =~= Seq::new(channels as nat, |c: int| 0i64));
        }
        r
    }

    pub fn inputs(&self) -> (r: u8)
        ensures
            r == 2,
    {
        2
    }

    pub fn output(&self) -> (r: &Vec<Sample>)
        ensures
            r@ == self@.out_spec(),
    {
        &self.output
    }

    pub fn sample(&mut self, input: &[Sample])
        requires
            old(self)@.wf_spec(),
            input@.len() >= 2 * old(self)@.output.len(),
        ensures
            final(self)@ == old(self)@.step_spec(input@),
            final(self)@.wf_spec(),
    {
        let channels: usize = self.output.len();
        let avail: usize = input.len();
        let mut c: usize = 0;
        while c < channels
            invariant
                c <= channels,
                self.output@.len() == channels,
                self.x_prime@.len() == channels,
                input@.len() >= 2 * channels,
                avail == input@.len(),
                self.sample_angular_period == old(self).sample_angular_period,
                forall|j: int|
                    c <= j < channels ==> self.output@[j] == old(self).output@[j]
                        && self.x_prime@[j] == old(self).x_prime@[j],
                forall|j: int|
                    0 <= j < c ==> self.output@[j] == hpf_next(
                        old(self).output@[j] as int,
                        input@[2 * j] as int,
                        old(self).x_prime@[j] as int,
                        input@[2 * j + 1] as int,
                        old(self)@.sample_angular_period,
                    ) && self.x_prime@[j] == input@[2 * j],
            decreases channels - c,
        {
            let x = input[2 * c];
            let f = input[2 * c + 1];
            let y = self.output[c];
            let xp = self.x_prime[c];
            let k = fx_mul(f, self.sample_angular_period);
            let a = fx_div(SCALE, fx_add(k, SCALE));
            let v = fx_mul(a, fx_sub(fx_add(y, x), xp));
            self.output.set(c, v);
            self.x_prime.set(c, x);
            c = c + 1;
        }
        proof {
            assert(self@ =~= old(self)@.step_spec(input@));
        }
    }
}

} // verus!
