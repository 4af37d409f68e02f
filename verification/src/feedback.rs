//! Feedback comb filter: the module's own previous output runs through
//! an internal delay, and the input plus the delayed signal scaled by
//! the gain is emitted.
//!
//! Sources to connect: input, delay time, gain.

use crate::delay::{Delay, DelayView};
use crate::sample::{fx_mul_spec, sat, Sample};
use vstd::prelude::*;

verus! {

/// The frame handed to the inner delay: the previous output as signal,
/// the delay time copied through.
pub open spec fn feedback_delay_input(output: Seq<Sample>, input: Seq<Sample>) -> Seq<Sample> {
    Seq::new(
        (2 * output.len()) as nat,
        |i: int| if i % 2 == 0 {
            output[i / 2]
        } else {
            input[3 * (i / 2) + 1]
        },
    )
}

pub struct Feedback {
    pub delay: Delay,
    pub delay_input: Vec<Sample>,
    pub output: Vec<Sample>,
}

#[verifier::ext_equal]
pub struct FeedbackView {
    pub delay: DelayView,
    pub delay_input: Seq<Sample>,
    pub output: Seq<Sample>,
}

impl View for Feedback {
    type V = FeedbackView;

    open spec fn view(&self) -> FeedbackView {
        FeedbackView { delay: self.delay@, delay_input: self.delay_input@, output: self.output@ }
    }
}

impl FeedbackView {
    pub open spec fn wf_spec(self) -> bool {
        &&& self.delay.wf_spec()
        &&& self.delay.output.len() == self.output.len()
        &&& self.delay_input.len() == 2 * self.output.len()
    }

    pub open spec fn out_spec(self) -> Seq<Sample> {
        self.output
    }

    pub open spec fn step_spec(self, input: Seq<Sample>) -> FeedbackView {
        let dinput = feedback_delay_input(self.output, input);
        let delay = self.delay.step_spec(dinput);
        FeedbackView {
            delay,
            delay_input: dinput,
            output: Seq::new(
                self.output.len(),
                |c: int| sat(
                    input[3 * c] + fx_mul_spec(input[3 * c + 2] as int, delay.output[c] as int),
                ) as Sample,
            ),
        }
    }
}

impl Feedback {
    pub fn new(channels: u8, sample_rate: u32, max_delay: Sample) -> (r: Feedback)
        ensures
            r@.wf_spec(),
            r@.out_spec() == Seq::new(channels as nat, |c: int| 0i64),
            r@.delay.sample_rate == sample_rate as int,
            r@.delay.ring_len == crate::delay::delay_frames(sample_rate as int, max_delay as int),
            r@.delay.output == Seq::new(channels as nat, |c: int| 0i64),
            forall|c: int|
                0 <= c < channels as int ==> r@.delay.buffers[c] == Seq::new(
                    r@.delay.ring_len as nat,
                    |j: int| 0i64,
                ),
            r@.delay.buffers.len() == channels as int,
            r@.delay_input == Seq::new(2 * channels as nat, |c: int| 0i64),
    {
        let r = Feedback {
            delay: Delay::new(channels, sample_rate, max_delay),
            delay_input: vec![0i64; 2 * channels as usize],
            output: vec![0i64; channels as usize],
        };
        proof {
            assert(r@.out_spec() =~= Seq::new(channels as nat, |c: int| 0i64));
        }
        r
    }

    pub fn inputs(&self) -> (r: u8)
        ensures
            r == 3,
    {
        3
    }

    pub fn output(&self) -> (r: &Vec<Sample>)
        ensures
            r@ == self@.out_spec(),
    {
        &self.output
    }

    pub fn sample(&mut self, input: &[Sample])
        requires
            old(self)@.wf_spec(),
            input@.len() >= 3 * old(self)@.output.len(),
        ensures
            final(self)@ == old(self)@.step_spec(input@),
            final(self)@.wf_spec(),
    {
        let channels: usize = self.output.len();
        let avail: usize = input.len();
        let ghost dinput = feedback_delay_input(old(self)@.output, input@);
        let mut c: usize = 0;
        while c < channels
            invariant
                c <= channels,
                self.output@.len() == channels,
                self.delay_input@.len() == 2 * channels,
                input@.len() >= 3 * channels,
                avail == input@.len(),
                self.output@ == old(self).output@,
                self.delay == old(self).delay,
                dinput == feedback_delay_input(old(self)@.output, input@),
                dinput.len() == 2 * channels,
                forall|i: int| 0 <= i < 2 * c ==> self.delay_input@[i] == dinput[i],
            decreases channels - c,
        {
            let prev = self.output[c];
            let t = input[3 * c + 1];
            self.delay_input.set(2 * c, prev);
            self.delay_input.set(2 * c + 1, t);
            c = c + 1;
        }
        proof {
            assert(self.delay_input@ =~= dinput);
        }
        self.delay.sample(self.delay_input.as_slice());
        proof {
            assert(self.delay@ == old(self)@.delay.step_spec(dinput));
        }
        let mut c: usize = 0;
        while c < channels
            invariant
                c <= channels,
                self.output@.len() == channels,
                self.delay_input@ == dinput,
                dinput.len() == 2 * channels,
                input@.len() >= 3 * channels,
                avail == input@.len(),
                self.delay@ == old(self)@.delay.step_spec(dinput),
                self.delay@.output.len() == channels,
                self.delay@.wf_spec(),
                forall|j: int|
                    c <= j < channels ==> self.output@[j] == old(self).output@[j],
                forall|j: int|
                    0 <= j < c ==> self.output@[j] == sat(
                        input@[3 * j] + fx_mul_spec(
                            input@[3 * j + 2] as int,
                            old(self)@.delay.step_spec(dinput).output[j] as int,
                        ),
                    ),
            decreases channels - c,
        {
            let x = input[3 * c];
            let gain = input[3 * c + 2];
            let delayed_ref = self.delay.output();
            let delayed = delayed_ref[c];
            let v = crate::sample::fx_add(x, crate::sample::fx_mul(gain, delayed));
            self.output.set(c, v);
            c = c + 1;
        }
        proof {
            assert(self@ =~= old(self)@.step_spec(input@));
        }
    }
}

} // verus!
