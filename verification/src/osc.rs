//! Oscillators: a Phasor driving a waveshaping function.  `Osc` takes a
//! frequency; `OscPhase` also takes a phase offset.
//!
//! Sources to connect: frequency (and phase offset for `OscPhase`).

use crate::function::{Fn1, Fn1View};
use crate::phasor::{Phasor, Phasor0, Phasor0View, PhasorView};
use crate::pure::UnaryFn;
use crate::sample::Sample;
use vstd::prelude::*;

verus! {

pub struct Osc {
    pub phasor: Phasor,
    pub osc: Fn1,
}

#[verifier::ext_equal]
pub struct OscView {
    pub phasor: PhasorView,
    pub osc: Fn1View,
}

impl View for Osc {
    type V = OscView;

    open spec fn view(&self) -> OscView {
        OscView { phasor: self.phasor@, osc: self.osc@ }
    }
}

impl OscView {
    pub open spec fn wf_spec(self) -> bool {
        self.phasor.phases.len() == self.osc.ys.len()
    }

    pub open spec fn out_spec(self) -> Seq<Sample> {
        self.osc.out_spec()
    }

    /// The phasor advances on the frequency input, then the waveshaper
    /// runs on the new phases.
    pub open spec fn step_spec(self, input: Seq<Sample>) -> OscView {
        let phasor = self.phasor.step_spec(input);
        OscView { phasor, osc: self.osc.step_spec(phasor.phases) }
    }
}

impl Osc {
    pub fn new(channels: u8, sample_rate: u32, f: UnaryFn) -> (r: Osc)
        ensures
            r@.wf_spec(),
            r@.out_spec() == Seq::new(channels as nat, |c: int| 0i64),
            r@.phasor.phases == Seq::new(channels as nat, |c: int| 0i64),
            r@.phasor.sample_rate == sample_rate as int,
            r@.osc.f == f,
    {
        Osc { phasor: Phasor::new(channels, sample_rate), osc: Fn1::new(channels, f) }
    }

    pub fn inputs(&self) -> (r: u8)
        ensures
            r == 1,
    {
        1
    }

    pub fn output(&self) -> (r: &Vec<Sample>)
        ensures
            r@ == self@.out_spec(),
    {
        self.osc.output()
    }

    pub fn sample(&mut self, input: &[Sample])
        requires
            old(self)@.wf_spec(),
            input@.len() >= old(self)@.phasor.phases.len(),
        ensures
            final(self)@ == old(self)@.step_spec(input@),
            final(self)@.wf_spec(),
    {
        self.phasor.sample(input);
        let phases: &Vec<Sample> = self.phasor.output();
        self.osc.sample(phases.as_slice());
        proof {
            assert(self@ =~= old(self)@.step_spec(input@));
        }
    }
}

pub struct OscPhase {
    pub phasor: Phasor0,
    pub osc: Fn1,
}

#[verifier::ext_equal]
pub struct OscPhaseView {
    pub phasor: Phasor0View,
    pub osc: Fn1View,
}

impl View for OscPhase {
    type V = OscPhaseView;

    open spec fn view(&self) -> OscPhaseView {
        OscPhaseView { phasor: self.phasor@, osc: self.osc@ }
    }
}

impl OscPhaseView {
    pub open spec fn wf_spec(self) -> bool {
        self.phasor.phases.len() == self.osc.ys.len()
    }

    pub open spec fn out_spec(self) -> Seq<Sample> {
        self.osc.out_spec()
    }

    pub open spec fn step_spec(self, input: Seq<Sample>) -> OscPhaseView {
        let phasor = self.phasor.step_spec(input);
        OscPhaseView { phasor, osc: self.osc.step_spec(phasor.phases) }
    }
}

impl OscPhase {
    pub fn new(channels: u8, sample_rate: u32, f: UnaryFn) -> (r: OscPhase)
        ensures
            r@.wf_spec(),
            r@.out_spec() == Seq::new(channels as nat, |c: int| 0i64),
            r@.phasor.phases == Seq::new(channels as nat, |c: int| 0i64),
            r@.phasor.sample_rate == sample_rate as int,
            r@.osc.f == f,
    {
        OscPhase { phasor: Phasor0::new(channels, sample_rate), osc: Fn1::new(channels, f) }
    }

    pub fn inputs(&self) -> (r: u8)
        ensures
            r == 2,
    {
        2
    }

    pub fn output(&self) -> (r: &Vec<Sample>)
        ensures
            r@ == self@.out_spec(),
    {
        self.osc.output()
    }

    pub fn sample(&mut self, input: &[Sample])
        requires
            old(self)@.wf_spec(),
            input@.len() >= 2 * old(self)@.phasor.phases.len(),
        ensures
            final(self)@ == old(self)@.step_spec(input@),
            final(self)@.wf_spec(),
    {
        self.phasor.sample(input);
        let phases: &Vec<Sample> = self.phasor.output();
        self.osc.sample(phases.as_slice());
        proof {
            assert(self@ =~= old(self)@.step_spec(input@));
        }
    }
}

} // verus!
