//! Delay: a per-channel ring buffer, newest sample at the front.  The
//! output linearly interpolates between the two samples around the
//! requested delay time, then the new input is pushed.
//!
//! Sources to connect: input to delay, delay time in seconds.

use crate::sample::{fx_mul_spec, sat, Sample, SCALE};
use std::collections::VecDeque;
use vstd::prelude::*;

verus! {

/// The ring length that holds `max_delay` seconds plus the extra sample
/// that interpolation reads, capped to keep allocations sane.
pub open spec fn delay_frames(rate: int, max_delay: int) -> int {
    let want = if max_delay <= 0 {
        1
    } else {
        (rate * max_delay) / (SCALE as int) + 1
    };
    if want > 0x80_0000 {
        0x80_0000
    } else {
        want
    }
}

/// The requested delay in frames, scaled: `t * rate`, clamped below at
/// zero.
pub open spec fn delay_z(t: int, rate: int) -> int {
    if t <= 0 {
        0
    } else {
        sat(t * rate)
    }
}

/// Linear interpolation of a ring at a fractional frame offset `z`
/// (in fixed point): reads positions `z / SCALE` and the next one,
/// indices wrapping around the ring.
pub open spec fn delay_read(ring: Seq<Sample>, z: int) -> int
    recommends
        ring.len() > 0,
{
    let d = z / (SCALE as int);
    let k = z % (SCALE as int);
    let a = ring[d % ring.len() as int];
    let b = ring[(d + 1) % ring.len() as int];
    sat(fx_mul_spec(sat(SCALE - k), a as int) + fx_mul_spec(k, b as int))
}

/// The ring one frame later: the new sample in front, the oldest gone.
pub open spec fn ring_pushed(ring: Seq<Sample>, x: Sample) -> Seq<Sample> {
    seq![x] + ring.drop_last()
}

pub struct Delay {
    pub buffers: Vec<VecDeque<Sample>>,
    pub ring_len: usize,
    pub sample_rate: i64,
    pub output: Vec<Sample>,
}

#[verifier::ext_equal]
pub struct DelayView {
    pub buffers: Seq<Seq<Sample>>,
    pub ring_len: int,
    pub sample_rate: int,
    pub output: Seq<Sample>,
}

impl View for Delay {
    type V = DelayView;

    open spec fn view(&self) -> DelayView {
        DelayView {
            buffers: self.buffers@.map_values(|b: VecDeque<Sample>| b@),
            ring_len: self.ring_len as int,
            sample_rate: self.sample_rate as int,
            output: self.output@,
        }
    }
}

impl DelayView {
    pub open spec fn wf_spec(self) -> bool {
        &&& self.buffers.len() == self.output.len()
        &&& 1 <= self.ring_len <= 0x80_0000
        &&& 0 <= self.sample_rate <= u32::MAX
        &&& forall|c: int|
            0 <= c < self.buffers.len() ==> (#[trigger] self.buffers[c]).len() == self.ring_len
    }

    pub open spec fn out_spec(self) -> Seq<Sample> {
        self.output
    }

    pub open spec fn step_spec(self, input: Seq<Sample>) -> DelayView {
        DelayView {
            buffers: Seq::new(
                self.buffers.len(),
                |c: int| ring_pushed(self.buffers[c], input[2 * c]),
            ),
            output: Seq::new(
                self.output.len(),
                |c: int| delay_read(
                    self.buffers[c],
                    delay_z(input[2 * c + 1] as int, self.sample_rate),
                ) as Sample,
            ),
            ..self
        }
    }
}

fn delay_z_exec(t: Sample, rate: i64) -> (r: Sample)
    requires
        0 <= rate <= u32::MAX,
    ensures
        r == delay_z(t as int, rate as int),
        r >= 0,
{
    if t <= 0 {
        return 0;
    }
    assert((t as u128) * (rate as u128) <= 0x8000_0000_0000_0000u128 * 0x1_0000_0000u128)
        by (nonlinear_arith)
        requires
            t as u128 <= 0x8000_0000_0000_0000u128,
            rate as u128 <= 0x1_0000_0000u128,
    ;
    let p: u128 = (t as u128) * (rate as u128);
    if p > i64::MAX as u128 {
        i64::MAX
    } else {
        p as i64
    }
}

impl Delay {
    pub fn new(channels: u8, sample_rate: u32, max_delay: Sample) -> (r: Delay)
        ensures
            r@.wf_spec(),
            r@.out_spec() == Seq::new(channels as nat, |c: int| 0i64),
            r@.sample_rate == sample_rate as int,
            r@.ring_len == delay_frames(sample_rate as int, max_delay as int),
            forall|c: int|
                0 <= c < channels as int ==> r@.buffers[c] == Seq::new(
                    r@.ring_len as nat,
                    |j: int| 0i64,
                ),
    {
        let frames: usize = if max_delay <= 0 {
            1
        } else {
            assert((sample_rate as u128) * (max_delay as u128) <= 0x1_0000_0000u128
                * 0x8000_0000_0000_0000u128)
                by (nonlinear_arith)
                requires
                    sample_rate as u128 <= 0x1_0000_0000u128,
                    max_delay as u128 <= 0x8000_0000_0000_0000u128,
            ;
            let p: u128 = ((sample_rate as u128) * (max_delay as u128)) / (SCALE as u128) + 1;
            if p > 0x80_0000u128 {
                0x80_0000usize
            } else {
                p as usize
            }
        };
        let mut buffers: Vec<VecDeque<Sample>> = Vec::new();
        let mut c: usize = 0;
        while c < channels as usize
            invariant
                c <= channels as usize,
                buffers@.len() == c,
                forall|i: int|
                    0 <= i < c ==> (#[trigger] buffers@[i])@ == Seq::new(
                        frames as nat,
                        |j: int| 0i64,
                    ),
            decreases channels as usize - c,
        {
            let mut ring: VecDeque<Sample> = VecDeque::new();
            let mut j: usize = 0;
            while j < frames
                invariant
                    j <= frames,
                    ring@ == Seq::new(j as nat, |t: int| 0i64),
                decreases frames - j,
            {
                ring.push_front(0);
                proof {
                    assert(ring@ =~= Seq::new(j as nat + 1, |t: int| 0i64));
                }
                j = j + 1;
            }
            buffers.push(ring);
            c = c + 1;
        }
        let r = Delay {
            buffers,
            ring_len: frames,
            sample_rate: sample_rate as i64,
            output: vec![0i64; channels as usize],
        };
        proof {
            assert(r@.out_spec() =~= Seq::new(channels as nat, |c: int| 0i64));
            assert forall|i: int| 0 <= i < channels as int implies r@.buffers[i] == Seq::new(
                r@.ring_len as nat,
                |j: int| 0i64,
            ) by {
                assert(r@.buffers[i] == buffers@[i]@);
            }
        }
        r
    }

    pub fn inputs(&self) -> (r: u8)
        ensures
            r == 2,
    {
        2
    }

    pub fn output(&self) -> (r: &Vec<Sample>)
        ensures
            r@ == self@.out_spec(),
    {
        &self.output
    }

    #[verifier::loop_isolation(false)]
    pub fn sample(&mut self, input: &[Sample])
        requires
            old(self)@.wf_spec(),
            input@.len() >= 2 * old(self)@.output.len(),
        ensures
            final(self)@ == old(self)@.step_spec(input@),
            final(self)@.wf_spec(),
    {
        let channels: usize = self.output.len();
        let avail: usize = input.len();
        let ghost bufs0 = self@.buffers;
        let ghost out0 = self.output@;
        let ghost rate0 = self@.sample_rate;
        let ghost rl0 = self@.ring_len;
        let mut c: usize = 0;
        while c < channels
            invariant
                c <= channels,
                self.output@.len() == channels,
                self.buffers@.len() == channels,
                bufs0.len() == channels,
                input@.len() >= 2 * channels,
                avail == input@.len(),
                self.ring_len == rl0,
                1 <= self.ring_len <= 0x80_0000,
                self.sample_rate == rate0,
                0 <= self.sample_rate <= u32::MAX,
                forall|j: int| c <= j < channels ==> self.output@[j] == out0[j],
                forall|j: int|
                    c <= j < channels ==> (#[trigger] self.buffers@[j])@ == bufs0[j],
                forall|j: int| 0 <= j < channels ==> (#[trigger] bufs0[j]).len() == rl0,
                forall|j: int|
                    0 <= j < c ==> self.output@[j] == delay_read(
                        bufs0[j],
                        delay_z(input@[2 * j + 1] as int, rate0),
                    ),
                forall|j: int|
                    0 <= j < c ==> (#[trigger] self.buffers@[j])@ == ring_pushed(
                        bufs0[j],
                        input@[2 * j],
                    ),
            decreases channels - c,
        {
            let x = input[2 * c];
            let t = input[2 * c + 1];
            let z = delay_z_exec(t, self.sample_rate);
            let zd: u64 = (z as u64) / (SCALE as u64);
            let k: Sample = ((z as u64) % (SCALE as u64)) as i64;
            let ll: u64 = self.ring_len as u64;
            let d0: usize = (zd % ll) as usize;
            let d1: usize = ((zd + 1) % ll) as usize;
            let ghost bufs_before = self.buffers@;
            let ghost out_before = self.output@;
            let mut ring: VecDeque<Sample> = VecDeque::new();
            core::mem::swap(&mut ring, &mut self.buffers[c]);
            proof {
                assert(ring@ == bufs0[c as int]);
                assert(ring@.len() == self.ring_len);
                assert((zd as int) % (ll as int) < ll as int);
                assert((zd as int + 1) % (ll as int) < ll as int);
            }
            let a = ring[d0];
            let b = ring[d1];
            let w = crate::sample::fx_add(
                crate::sample::fx_mul(crate::sample::fx_sub(SCALE, k), a),
                crate::sample::fx_mul(k, b),
            );
            proof {
                let zz = delay_z(t as int, self.sample_rate as int);
                assert(zd == zz / (SCALE as int));
                assert(k == zz % (SCALE as int));
                assert(d0 as int == (zz / (SCALE as int)) % (ring@.len() as int));
                assert(d1 as int == (zz / (SCALE as int) + 1) % (ring@.len() as int));
                assert(w == delay_read(ring@, zz));
            }
            ring.pop_back();
            ring.push_front(x);
            proof {
                assert(ring@ =~= ring_pushed(bufs0[c as int], x));
            }
            self.buffers.set(c, ring);
            self.output.set(c, w);
            proof {
                assert forall|j: int| 0 <= j < channels && j != c implies (
                #[trigger] self.buffers@[j])@ == bufs_before[j]@ by {}
            }
            c = c + 1;
        }
        proof {
            assert(self@ =~= old(self)@.step_spec(input@));
        }
    }
}

} // verus!
