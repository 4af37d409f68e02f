//! Sample & hold: `y <- y * (1 - t) + x * t`.  A 0-or-1 trigger gives
//! classical sample-and-hold; fractional triggers crossfade smoothly.
//!
//! Sources to connect: trigger, input.

use crate::sample::{fx_add, fx_mul, fx_mul_spec, fx_sub, sat, Sample, SCALE};
use vstd::prelude::*;

verus! {

/// One step of the hold: the old value faded toward the new by `t`.
pub open spec fn hold_next(y: int, t: int, x: int) -> int {
    sat(fx_mul_spec(y, sat(SCALE - t)) + fx_mul_spec(x, t))
}

pub struct SampleAndHold {
    pub output: Vec<Sample>,
}

#[verifier::ext_equal]
pub struct SampleAndHoldView {
    pub output: Seq<Sample>,
}

impl View for SampleAndHold {
    type V = SampleAndHoldView;

    open spec fn view(&self) -> SampleAndHoldView {
        SampleAndHoldView { output: self.output@ }
    }
}

impl SampleAndHoldView {
    pub open spec fn out_spec(self) -> Seq<Sample> {
        self.output
    }

    pub open spec fn step_spec(self, input: Seq<Sample>) -> SampleAndHoldView {
        SampleAndHoldView {
            output: Seq::new(
                self.output.len(),
                |c: int| hold_next(self.output[c] as int, input[2 * c] as int, input[2 * c + 1] as int)
                    as Sample,
            ),
        }
    }
}

impl SampleAndHold {
    pub fn new(channels: u8) -> (r: SampleAndHold)
        ensures
            r@.out_spec() == Seq::new(channels as nat, |c: int| 0i64),
    {
        let r = SampleAndHold { output: vec![0i64; channels as usize] };
        proof {
            assert(r@.out_spec() =~= Seq::new(channels as nat, |c: int| 0i64));
        }
        r
    }

    pub fn inputs(&self) -> (r: u8)
        ensures
            r == 2,
    {
        2
    }

    pub fn output(&self) -> (r: &Vec<Sample>)
        ensures
            r@ == self@.out_spec(),
    {
        &self.output
    }

    pub fn sample(&mut self, input: &[Sample])
        requires
            input@.len() >= 2 * old(self)@.output.len(),
        ensures
            final(self)@ == old(self)@.step_spec(input@),
    {
        let channels: usize = self.output.len();
        let avail: usize = input.len();
        let mut c: usize = 0;
        while c < channels
            invariant
                c <= channels,
                self.output@.len() == channels,
                input@.len() >= 2 * channels,
                avail == input@.len(),
                forall|j: int|
                    c <= j < channels ==> self.output@[j] == old(self).output@[j],
                forall|j: int|
                    0 <= j < c ==> self.output@[j] == hold_next(
                        old(self).output@[j] as int,
                        input@[2 * j] as int,
                        input@[2 * j + 1] as int,
                    ),
            decreases channels - c,
        {
            let t = input[2 * c];
            let x = input[2 * c + 1];
            let y = self.output[c];
            let v = fx_add(fx_mul(y, fx_sub(SCALE, t)), fx_mul(x, t));
            self.output.set(c, v);
            c = c + 1;
        }
        proof {
            assert(self@ =~= old(self)@.step_spec(input@));
        }
    }
}

} // verus!
