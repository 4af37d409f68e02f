//! Phasor: generates a rising ramp (sawtooth) in `[-1, 1)`, advancing
//! each frame by `frequency / sample_rate` and wrapping.  It serves as
//! the phase input of oscillators, which then become pure waveshapers.
//!
//! `Phasor` sources to connect: frequency.
//! `Phasor0` sources to connect: frequency, phase offset.

use crate::sample::{divi_spec, fx_divi, wrap2, wrap_add, Sample};
use vstd::prelude::*;

verus! {

/// The next phase: the old phase advanced by `f / rate` and wrapped
/// into `[-1, 1)`.
pub open spec fn phasor_next(phi: int, f: int, rate: int) -> int {
    wrap2(phi + divi_spec(f, rate))
}

/// As `phasor_next`, with a phase offset added before the wrap.
pub open spec fn phasor0_next(phi: int, f: int, phase0: int, rate: int) -> int {
    wrap2(crate::sample::sat(phi + phase0) + divi_spec(f, rate))
}

pub struct Phasor {
    pub phases: Vec<Sample>,
    pub sample_rate: i64,
}

#[verifier::ext_equal]
pub struct PhasorView {
    pub phases: Seq<Sample>,
    pub sample_rate: int,
}

impl View for Phasor {
    type V = PhasorView;

    open spec fn view(&self) -> PhasorView {
        PhasorView { phases: self.phases@, sample_rate: self.sample_rate as int }
    }
}

impl PhasorView {
    pub open spec fn out_spec(self) -> Seq<Sample> {
        self.phases
    }

    pub open spec fn step_spec(self, input: Seq<Sample>) -> PhasorView {
        PhasorView {
            phases: Seq::new(
                self.phases.len(),
                |c: int| phasor_next(self.phases[c] as int, input[c] as int, self.sample_rate) as Sample,
            ),
            ..self
        }
    }
}

impl Phasor {
    pub fn new(channels: u8, sample_rate: u32) -> (r: Phasor)
        ensures
            r@.out_spec() == Seq::new(channels as nat, |c: int| 0i64),
            r@.sample_rate == sample_rate as int,
    {
        let r = Phasor {
            phases: vec![0i64; channels as usize],
            sample_rate: sample_rate as i64,
        };
        proof {
            assert(r@.out_spec() =~= Seq::new(channels as nat, |c: int| 0i64));
        }
        r
    }

    pub fn inputs(&self) -> (r: u8)
        ensures
            r == 1,
    {
        1
    }

    pub fn output(&self) -> (r: &Vec<Sample>)
        ensures
            r@ == self@.out_spec(),
    {
        &self.phases
    }

    pub fn sample(&mut self, input: &[Sample])
        requires
            input@.len() >= old(self)@.phases.len(),
        ensures
            final(self)@ == old(self)@.step_spec(input@),
    {
        let channels: usize = self.phases.len();
        let avail: usize = input.len();
        let mut c: usize = 0;
        while c < channels
            invariant
                c <= channels,
                self.phases@.len() == channels,
                input@.len() >= channels,
                avail == input@.len(),
                self.sample_rate == old(self).sample_rate,
                forall|j: int|
                    c <= j < channels ==> self.phases@[j] == old(self).phases@[j],
                forall|j: int|
                    0 <= j < c ==> self.phases@[j] == phasor_next(
                        old(self).phases@[j] as int,
                        input@[j] as int,
                        old(self)@.sample_rate,
                    ),
            decreases channels - c,
        {
            let dx = fx_divi(input[c], self.sample_rate);
            let phi = self.phases[c];
            let next = wrap_add(phi, dx);
            self.phases.set(c, next);
            c = c + 1;
        }
        proof {
            assert(self@ =~= old(self)@.step_spec(input@));
        }
    }
}

pub struct Phasor0 {
    pub phases: Vec<Sample>,
    pub sample_rate: i64,
}

#[verifier::ext_equal]
pub struct Phasor0View {
    pub phases: Seq<Sample>,
    pub sample_rate: int,
}

impl View for Phasor0 {
    type V = Phasor0View;

    open spec fn view(&self) -> Phasor0View {
        Phasor0View { phases: self.phases@, sample_rate: self.sample_rate as int }
    }
}

impl Phasor0View {
    pub open spec fn out_spec(self) -> Seq<Sample> {
        self.phases
    }

    pub open spec fn step_spec(self, input: Seq<Sample>) -> Phasor0View {
        Phasor0View {
            phases: Seq::new(
                self.phases.len(),
                |c: int| phasor0_next(
                    self.phases[c] as int,
                    input[2 * c] as int,
                    input[2 * c + 1] as int,
                    self.sample_rate,
                ) as Sample,
            ),
            ..self
        }
    }
}

impl Phasor0 {
    pub fn new(channels: u8, sample_rate: u32) -> (r: Phasor0)
        ensures
            r@.out_spec() == Seq::new(channels as nat, |c: int| 0i64),
            r@.sample_rate == sample_rate as int,
    {
        let r = Phasor0 {
            phases: vec![0i64; channels as usize],
            sample_rate: sample_rate as i64,
        };
        proof {
            assert(r@.out_spec() =~= Seq::new(channels as nat, |c: int| 0i64));
        }
        r
    }

    pub fn inputs(&self) -> (r: u8)
        ensures
            r == 2,
    {
        2
    }

    pub fn output(&self) -> (r: &Vec<Sample>)
        ensures
            r@ == self@.out_spec(),
    {
        &self.phases
    }

    pub fn sample(&mut self, input: &[Sample])
        requires
            input@.len() >= 2 * old(self)@.phases.len(),
        ensures
            final(self)@ == old(self)@.step_spec(input@),
    {
        let channels: usize = self.phases.len();
        let avail: usize = input.len();
        let mut c: usize = 0;
        while c < channels
            invariant
                c <= channels,
                self.phases@.len() == channels,
                input@.len() >= 2 * channels,
                avail == input@.len(),
                self.sample_rate == old(self).sample_rate,
                forall|j: int|
                    c <= j < channels ==> self.phases@[j] == old(self).phases@[j],
                forall|j: int|
                    0 <= j < c ==> self.phases@[j] == phasor0_next(
                        old(self).phases@[j] as int,
                        input@[2 * j] as int,
                        input@[2 * j + 1] as int,
                        old(self)@.sample_rate,
                    ),
            decreases channels - c,
        {
            let f = input[2 * c];
            let phase0 = input[2 * c + 1];
            let dx = fx_divi(f, self.sample_rate);
            let phi = self.phases[c];
            let shifted = crate::sample::fx_add(phi, phase0);
            let next = wrap_add(shifted, dx);
            self.phases.set(c, next);
            c = c + 1;
        }
        proof {
            assert(self@ =~= old(self)@.step_spec(input@));
        }
    }
}

} // verus!
