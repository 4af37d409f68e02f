//! Impulse envelope: on a rising edge of the trigger it restarts a
//! `h * e^(1 - h)` curve, where `h` is the time since the trigger
//! divided by the apex time; the curve peaks at one when the elapsed
//! time equals the apex.
//!
//! Sources to connect: trigger, apex.

use crate::sample::{fx_div, fx_div_spec, fx_mul, fx_mul_spec, fx_sub, sat, Sample, SCALE};
use crate::transcend::{exp2_fx, exp2_spec};
use vstd::prelude::*;

verus! {

/// The base-two logarithm of Euler's number, in fixed point.
pub const LOG2E: i64 = 6196328019;

/// `e^x` via the base-two exponential.
pub open spec fn exp_spec(x: int) -> int {
    exp2_spec(fx_mul_spec(x, LOG2E as int))
}

pub fn exp_fx(x: Sample) -> (r: Sample)
    ensures
        r == exp_spec(x as int),
{
    exp2_fx(fx_mul(x, LOG2E))
}

/// The elapsed time in seconds, fixed point: `frames * SCALE / rate`.
pub open spec fn elapsed_time(frames: int, rate: int) -> int {
    if rate == 0 {
        0
    } else {
        sat((frames * SCALE) / rate)
    }
}

/// The envelope's height `h * e^(1 - h)` at normalized time `h`.
pub open spec fn impulse_height(h: int) -> int {
    fx_mul_spec(h, exp_spec(sat(SCALE - h)))
}

fn elapsed_time_exec(frames: u64, rate: i64) -> (r: Sample)
    requires
        0 <= rate <= u32::MAX,
    ensures
        r == elapsed_time(frames as int, rate as int),
{
    if rate == 0 {
        return 0;
    }
    assert((frames as u128) * (SCALE as u128) <= 0xffff_ffff_ffff_ffffu128 * 0x1_0000_0000u128)
        by (nonlinear_arith)
        requires
            frames as u128 <= 0xffff_ffff_ffff_ffffu128,
            SCALE as u128 <= 0x1_0000_0000u128,
    ;
    let p: u128 = (frames as u128 * SCALE as u128) / (rate as u128);
    if p > i64::MAX as u128 {
        i64::MAX
    } else {
        p as i64
    }
}

pub struct Impulse {
    pub frame: u64,
    pub last_trigger: Vec<Sample>,
    pub output: Vec<Sample>,
    pub sample_rate: i64,
    pub trigger_frame: Vec<u64>,
}

#[verifier::ext_equal]
pub struct ImpulseView {
    pub frame: int,
    pub last_trigger: Seq<Sample>,
    pub output: Seq<Sample>,
    pub sample_rate: int,
    pub trigger_frame: Seq<u64>,
}

impl View for Impulse {
    type V = ImpulseView;

    open spec fn view(&self) -> ImpulseView {
        ImpulseView {
            frame: self.frame as int,
            last_trigger: self.last_trigger@,
            output: self.output@,
            sample_rate: self.sample_rate as int,
            trigger_frame: self.trigger_frame@,
        }
    }
}

impl ImpulseView {
    pub open spec fn wf_spec(self) -> bool {
        &&& self.last_trigger.len() == self.output.len()
        &&& self.trigger_frame.len() == self.output.len()
        &&& 0 <= self.sample_rate <= u32::MAX
        &&& 0 <= self.frame <= u64::MAX
        &&& forall|c: int|
            0 <= c < self.trigger_frame.len() ==> 0 <= #[trigger] self.trigger_frame[c]
                <= self.frame
    }

    pub open spec fn out_spec(self) -> Seq<Sample> {
        self.output
    }

    /// A rising edge: the previous trigger was non-positive and the new
    /// one is positive.
    pub open spec fn edge_at(self, input: Seq<Sample>, c: int) -> bool {
        self.last_trigger[c] <= 0 && input[2 * c] > 0
    }

    pub open spec fn trigger_frame_at(self, input: Seq<Sample>, c: int) -> int {
        if self.edge_at(input, c) {
            self.frame
        } else {
            self.trigger_frame[c] as int
        }
    }

    pub open spec fn height_at(self, input: Seq<Sample>, c: int) -> int {
        let t = elapsed_time(self.frame - self.trigger_frame_at(input, c), self.sample_rate);
        impulse_height(fx_div_spec(t, input[2 * c + 1] as int))
    }

    pub open spec fn step_spec(self, input: Seq<Sample>) -> ImpulseView {
        ImpulseView {
            output: Seq::new(self.output.len(), |c: int| self.height_at(input, c) as Sample),
            last_trigger: Seq::new(self.output.len(), |c: int| input[2 * c]),
            trigger_frame: Seq::new(
                self.output.len(),
                |c: int| self.trigger_frame_at(input, c) as u64,
            ),
            frame: crate::metro::next_frame(self.frame),
            ..self
        }
    }
}

impl Impulse {
    pub fn new(channels: u8, sample_rate: u32) -> (r: Impulse)
        ensures
            r@.wf_spec(),
            r@.out_spec() == Seq::new(channels as nat, |c: int| 0i64),
            r@.frame == 0,
            r@.sample_rate == sample_rate as int,
            r@.last_trigger == Seq::new(channels as nat, |c: int| 0i64),
            r@.trigger_frame == Seq::new(channels as nat, |c: int| 0u64),
    {
        let r = Impulse {
            frame: 0,
            last_trigger: vec![0i64; channels as usize],
            output: vec![0i64; channels as usize],
            sample_rate: sample_rate as i64,
            trigger_frame: vec![0u64; channels as usize],
        };
        proof {
            assert(r@.out_spec() =~= Seq::new(channels as nat, |c: int| 0i64));
        }
        r
    }

    pub fn inputs(&self) -> (r: u8)
        ensures
            r == 2,
    {
        2
    }

    pub fn output(&self) -> (r: &Vec<Sample>)
        ensures
            r@ == self@.out_spec(),
    {
        &self.output
    }

    pub fn sample(&mut self, input: &[Sample])
        requires
            old(self)@.wf_spec(),
            input@.len() >= 2 * old(self)@.output.len(),
        ensures
            final(self)@ == old(self)@.step_spec(input@),
            final(self)@.wf_spec(),
    {
        let channels: usize = self.output.len();
        let avail: usize = input.len();
        let mut c: usize = 0;
        while c < channels
            invariant
                c <= channels,
                self.output@.len() == channels,
                self.last_trigger@.len() == channels,
                self.trigger_frame@.len() == channels,
                input@.len() >= 2 * channels,
                avail == input@.len(),
                self.frame == old(self).frame,
                self.sample_rate == old(self).sample_rate,
                0 <= self.sample_rate <= u32::MAX,
                forall|j: int|
                    c <= j < channels ==> self.output@[j] == old(self).output@[j]
                        && self.last_trigger@[j] == old(self).last_trigger@[j]
                        && self.trigger_frame@[j] == old(self).trigger_frame@[j],
                forall|j: int|
                    0 <= j < channels ==> 0 <= #[trigger] old(self).trigger_frame@[j]
                        <= old(self).frame,
                forall|j: int|
                    0 <= j < c ==> {
                        &&& self.output@[j] == old(self)@.height_at(input@, j)
                        &&& self.last_trigger@[j] == input@[2 * j]
                        &&& self.trigger_frame@[j] == old(self)@.trigger_frame_at(input@, j)
                    },
            decreases channels - c,
        {
            let trigger = input[2 * c];
            let apex = input[2 * c + 1];
            let last = self.last_trigger[c];
            let tf: u64 = if last <= 0 && trigger > 0 {
                self.frame
            } else {
                self.trigger_frame[c]
            };
            let t = elapsed_time_exec(self.frame - tf, self.sample_rate);
            let h = fx_div(t, apex);
            let v = fx_mul(h, exp_fx(fx_sub(SCALE, h)));
            self.output.set(c, v);
            self.last_trigger.set(c, trigger);
            self.trigger_frame.set(c, tf);
            c = c + 1;
        }
        if self.frame < u64::MAX {
            self.frame = self.frame + 1;
        }
        proof {
            assert(self@ =~= old(self)@.step_spec(input@));
        }
    }
}

} // verus!
