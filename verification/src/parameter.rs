//! Parameter module: broadcasts `external_input[channels + index]` to
//! every output channel.  The host packs parameters after the audio
//! channels in the external input frame; a missing parameter reads as
//! silence.
//!
//! Sources to connect: none required.

use crate::sample::Sample;
use vstd::prelude::*;

verus! {

/// The parameter value visible in an external frame.
pub open spec fn param_value(input: Seq<Sample>, channels: nat, index: nat) -> Sample {
    if channels + index < input.len() {
        input[(channels + index) as int]
    } else {
        0
    }
}

pub struct Parameter {
    pub index: usize,
    pub output: Vec<Sample>,
}

#[verifier::ext_equal]
pub struct ParameterView {
    pub index: nat,
    pub output: Seq<Sample>,
}

impl View for Parameter {
    type V = ParameterView;

    open spec fn view(&self) -> ParameterView {
        ParameterView { index: self.index as nat, output: self.output@ }
    }
}

impl ParameterView {
    pub open spec fn out_spec(self) -> Seq<Sample> {
        self.output
    }

    pub open spec fn step_spec(self, input: Seq<Sample>) -> ParameterView {
        ParameterView {
            output: Seq::new(
                self.output.len(),
                |c: int| param_value(input, self.output.len(), self.index),
            ),
            ..self
        }
    }
}

impl Parameter {
    pub fn new(channels: u8, index: u8) -> (r: Parameter)
        ensures
            r@.out_spec() == Seq::new(channels as nat, |c: int| 0i64),
            r@.index == index as nat,
    {
        let r = Parameter { index: index as usize, output: vec![0i64; channels as usize] };
        proof {
            assert(r@.out_spec() =~= Seq::new(channels as nat, |c: int| 0i64));
        }
        r
    }

    pub fn inputs(&self) -> (r: u8)
        ensures
            r == 0,
    {
        0
    }

    pub fn output(&self) -> (r: &Vec<Sample>)
        ensures
            r@ == self@.out_spec(),
    {
        &self.output
    }

    pub fn sample(&mut self, input: &[Sample])
        ensures
            final(self)@ == old(self)@.step_spec(input@),
    {
        let channels: usize = self.output.len();
        let avail: usize = input.len();
        let v: Sample = if self.index < avail && channels < avail - self.index {
            input[channels + self.index]
        } else {
            0
        };
        proof {
            assert(v == param_value(input@, channels as nat, old(self)@.index));
        }
        let mut c: usize = 0;
        while c < channels
            invariant
                c <= channels,
                self.output@.len() == channels,
                self.index == old(self).index,
                forall|j: int| 0 <= j < c ==> self.output@[j] == v,
            decreases channels - c,
        {
            self.output.set(c, v);
            c = c + 1;
        }
        proof {
            assert(self@ =~= old(self)@.step_spec(input@));
        }
    }
}

} // verus!
