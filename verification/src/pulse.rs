//! Pulse wave: a Phasor on the frequency input feeding a rectangle
//! function of (phase, width).
//!
//! Sources to connect: frequency, duty cycle.

use crate::function::{Fn2, Fn2View};
use crate::phasor::{Phasor, PhasorView};
use crate::pure::BinaryFn;
use crate::sample::Sample;
use vstd::prelude::*;

verus! {

/// The phasor's per-channel frequencies, extracted from the packed
/// two-input buffer.
pub open spec fn pulse_freqs(input: Seq<Sample>, channels: nat) -> Seq<Sample> {
    Seq::new(channels, |c: int| input[2 * c])
}

/// The rectangle's input: the new phase of each channel zipped with the
/// width input.
pub open spec fn pulse_osc_input(phases: Seq<Sample>, input: Seq<Sample>) -> Seq<Sample> {
    Seq::new(
        (2 * phases.len()) as nat,
        |i: int| if i % 2 == 0 {
            phases[i / 2]
        } else {
            input[2 * (i / 2) + 1]
        },
    )
}

pub struct Pulse {
    pub phasor_input: Vec<Sample>,
    pub osc_input: Vec<Sample>,
    pub phasor: Phasor,
    pub osc: Fn2,
}

#[verifier::ext_equal]
pub struct PulseView {
    pub phasor_input: Seq<Sample>,
    pub osc_input: Seq<Sample>,
    pub phasor: PhasorView,
    pub osc: Fn2View,
}

impl View for Pulse {
    type V = PulseView;

    open spec fn view(&self) -> PulseView {
        PulseView {
            phasor_input: self.phasor_input@,
            osc_input: self.osc_input@,
            phasor: self.phasor@,
            osc: self.osc@,
        }
    }
}

impl PulseView {
    pub open spec fn wf_spec(self) -> bool {
        &&& self.phasor.phases.len() == self.osc.ys.len()
        &&& self.phasor_input.len() == self.osc.ys.len()
        &&& self.osc_input.len() == 2 * self.osc.ys.len()
    }

    pub open spec fn out_spec(self) -> Seq<Sample> {
        self.osc.out_spec()
    }

    pub open spec fn step_spec(self, input: Seq<Sample>) -> PulseView {
        let freqs = pulse_freqs(input, self.phasor.phases.len());
        let phasor = self.phasor.step_spec(freqs);
        let osc_in = pulse_osc_input(phasor.phases, input);
        PulseView {
            phasor_input: freqs,
            osc_input: osc_in,
            phasor,
            osc: self.osc.step_spec(osc_in),
        }
    }
}

impl Pulse {
    pub fn new(channels: u8, sample_rate: u32) -> (r: Pulse)
        ensures
            r@.wf_spec(),
            r@.out_spec() == Seq::new(channels as nat, |c: int| 0i64),
            r@.phasor.sample_rate == sample_rate as int,
            r@.osc.f == BinaryFn::Rectangle,
            r@.phasor.phases == Seq::new(channels as nat, |c: int| 0i64),
            r@.phasor_input == Seq::new(channels as nat, |c: int| 0i64),
            r@.osc_input == Seq::new(2 * channels as nat, |c: int| 0i64),
    {
        let r = Pulse {
            phasor_input: vec![0i64; channels as usize],
            osc_input: vec![0i64; 2 * channels as usize],
            phasor: Phasor::new(channels, sample_rate),
            osc: Fn2::new(channels, BinaryFn::Rectangle),
        };
        r
    }

    pub fn inputs(&self) -> (r: u8)
        ensures
            r == 2,
    {
        2
    }

    pub fn output(&self) -> (r: &Vec<Sample>)
        ensures
            r@ == self@.out_spec(),
    {
        self.osc.output()
    }

    #[verifier::loop_isolation(false)]
    pub fn sample(&mut self, input: &[Sample])
        requires
            old(self)@.wf_spec(),
            input@.len() >= 2 * old(self)@.osc.ys.len(),
        ensures
            final(self)@ == old(self)@.step_spec(input@),
            final(self)@.wf_spec(),
    {
        let channels: usize = self.phasor_input.len();
        let avail: usize = input.len();
        let ghost view0 = self@;
        let ghost freqs = pulse_freqs(input@, view0.phasor.phases.len());
        let mut c: usize = 0;
        while c < channels
            invariant
                c <= channels,
                self.phasor_input@.len() == channels,
                input@.len() >= 2 * channels,
                avail == input@.len(),
                self.phasor@ == view0.phasor,
                self.osc@ == view0.osc,
                self.osc_input@ == view0.osc_input,
                forall|j: int| 0 <= j < c ==> self.phasor_input@[j] == input@[2 * j],
            decreases channels - c,
        {
            let f = input[2 * c];
            self.phasor_input.set(c, f);
            c = c + 1;
        }
        proof {
            assert(self.phasor_input@ =~= freqs);
        }
        self.phasor.sample(self.phasor_input.as_slice());
        let ghost phases = view0.phasor.step_spec(freqs).phases;
        let ghost phasor1 = self@.phasor;
        proof {
            assert(self.phasor@.phases == phases);
        }
        let mut c: usize = 0;
        while c < channels
            invariant
                c <= channels,
                self.osc_input@.len() == 2 * channels,
                self.phasor@ == phasor1,
                self.phasor@.phases.len() == channels,
                self.phasor@.phases == phases,
                input@.len() >= 2 * channels,
                avail == input@.len(),
                self.osc@ == view0.osc,
                self.phasor_input@ == freqs,
                forall|i: int|
                    0 <= i < 2 * c ==> self.osc_input@[i] == (if i % 2 == 0 {
                        phases[i / 2]
                    } else {
                        input@[2 * (i / 2) + 1]
                    }),
            decreases channels - c,
        {
            let phase_ref = self.phasor.output();
            let ph = phase_ref[c];
            let w = input[2 * c + 1];
            self.osc_input.set(2 * c, ph);
            self.osc_input.set(2 * c + 1, w);
            c = c + 1;
        }
        proof {
            assert(self.osc_input@ =~= pulse_osc_input(phases, input@));
        }
        self.osc.sample(self.osc_input.as_slice());
        proof {
            assert(self@ =~= old(self)@.step_spec(input@));
        }
    }
}

} // verus!
