//! Input module: forwards the engine's external input frame to its
//! output, one sample per channel.  Missing external channels read as
//! silence.
//!
//! Sources to connect: none required.

use crate::sample::Sample;
use vstd::prelude::*;

verus! {

pub struct Input {
    pub output: Vec<Sample>,
}

#[verifier::ext_equal]
pub struct InputView {
    pub output: Seq<Sample>,
}

impl View for Input {
    type V = InputView;

    open spec fn view(&self) -> InputView {
        InputView { output: self.output@ }
    }
}

/// What an Input holds after one step: the first `channels` samples of
/// the external frame, zero-filled past its end.
pub open spec fn input_copied(input: Seq<Sample>, channels: nat) -> Seq<Sample> {
    Seq::new(channels, |c: int| if c < input.len() { input[c] } else { 0 })
}

impl InputView {
    pub open spec fn out_spec(self) -> Seq<Sample> {
        self.output
    }

    pub open spec fn step_spec(self, input: Seq<Sample>) -> InputView {
        InputView { output: input_copied(input, self.output.len()) }
    }
}

impl Input {
    pub fn new(channels: u8) -> (r: Input)
        ensures
            r@.out_spec() == Seq::new(channels as nat, |c: int| 0i64),
    {
        let r = Input { output: vec![0i64; channels as usize] };
        proof {
            assert(r@.out_spec() =~= Seq::new(channels as nat, |c: int| 0i64));
        }
        r
    }

    pub fn inputs(&self) -> (r: u8)
        ensures
            r == 0,
    {
        0
    }

    pub fn output(&self) -> (r: &Vec<Sample>)
        ensures
            r@ == self@.out_spec(),
    {
        &self.output
    }

    pub fn sample(&mut self, input: &[Sample])
        ensures
            final(self)@ == old(self)@.step_spec(input@),
    {
        let channels: usize = self.output.len();
        let available: usize = input.len();
        let mut c: usize = 0;
        while c < channels
            invariant
                c <= channels,
                self.output@.len() == channels,
                available == input@.len(),
                forall|j: int|
                    0 <= j < c ==> self.output@[j] == (if j < input@.len() {
                        input@[j]
                    } else {
                        0i64
                    }),
            decreases channels - c,
        {
            if c < available {
                let v: Sample = input[c];
                self.output.set(c, v);
            } else {
                self.output.set(c, 0);
            }
            c = c + 1;
        }
        proof {
            assert(self@ =~= old(self)@.step_spec(input@));
        }
    }
}

} // verus!
