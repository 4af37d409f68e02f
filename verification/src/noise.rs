//! White noise: one uniform sample in `[-1, 1)` per channel per frame,
//! drawn from a 64-bit xorshift-star generator seeded at construction.
//!
//! Sources to connect: none required.

use crate::sample::{Sample, SCALE};
use vstd::prelude::*;

verus! {

/// One step of the xorshift-star generator.
pub open spec fn xorshift_star(s: u64) -> u64 {
    let a = s ^ (s >> 12);
    let b = a ^ (a << 25);
    let c = b ^ (b >> 27);
    (((c as int) * 2685821657736338717) % 0x1_0000_0000_0000_0000) as u64
}

/// The generator state after `n` draws.
pub open spec fn state_after(s: u64, n: nat) -> u64
    decreases n,
{
    if n == 0 {
        s
    } else {
        xorshift_star(state_after(s, (n - 1) as nat))
    }
}

/// A generator word folded into one uniform sample in `[-1, 1)`.
pub open spec fn noise_value(s: u64) -> Sample {
    ((s as int % (2 * SCALE as int)) - SCALE) as Sample
}

fn xorshift_star_exec(s: u64) -> (r: u64)
    ensures
        r == xorshift_star(s),
{
    let a = s ^ (s >> 12u64);
    let b = a ^ (a << 25u64);
    let c = b ^ (b >> 27u64);
    c.wrapping_mul(2685821657736338717)
}

/// Relies on rand::random for one machine-entropy seed word; nothing is
/// promised of the value.
#[verifier::external_body]
fn entropy_seed() -> u64 {
    rand::random()
}

pub struct WhiteNoise {
    pub state: u64,
    pub output: Vec<Sample>,
}

#[verifier::ext_equal]
pub struct WhiteNoiseView {
    pub state: u64,
    pub output: Seq<Sample>,
}

impl View for WhiteNoise {
    type V = WhiteNoiseView;

    open spec fn view(&self) -> WhiteNoiseView {
        WhiteNoiseView { state: self.state, output: self.output@ }
    }
}

impl WhiteNoiseView {
    pub open spec fn out_spec(self) -> Seq<Sample> {
        self.output
    }

    pub open spec fn step_spec(self, input: Seq<Sample>) -> WhiteNoiseView {
        WhiteNoiseView {
            state: state_after(self.state, self.output.len()),
            output: Seq::new(
                self.output.len(),
                |c: int| noise_value(state_after(self.state, (c + 1) as nat)),
            ),
        }
    }
}

impl WhiteNoise {
    /// A noise source seeded from machine entropy.
    pub fn new(channels: u8) -> (r: WhiteNoise)
        ensures
            r@.out_spec() == Seq::new(channels as nat, |c: int| 0i64),
    {
        let seed = entropy_seed();
        WhiteNoise::with_seed(channels, seed)
    }

    /// A noise source with a reproducible seed.
    pub fn with_seed(channels: u8, seed: u64) -> (r: WhiteNoise)
        ensures
            r@.out_spec() == Seq::new(channels as nat, |c: int| 0i64),
            r@.state == seed,
    {
        let r = WhiteNoise { state: seed, output: vec![0i64; channels as usize] };
        proof {
            assert(r@.out_spec() =~= Seq::new(channels as nat, |c: int| 0i64));
        }
        r
    }

    pub fn inputs(&self) -> (r: u8)
        ensures
            r == 0,
    {
        0
    }

    pub fn output(&self) -> (r: &Vec<Sample>)
        ensures
            r@ == self@.out_spec(),
    {
        &self.output
    }

    pub fn sample(&mut self, _input: &[Sample])
        ensures
            final(self)@ == old(self)@.step_spec(_input@),
    {
        let channels: usize = self.output.len();
        let mut c: usize = 0;
        while c < channels
            invariant
                c <= channels,
                self.output@.len() == channels,
                self.state == state_after(old(self).state, c as nat),
                forall|j: int|
                    0 <= j < c ==> self.output@[j] == noise_value(
                        state_after(old(self).state, (j + 1) as nat),
                    ),
            decreases channels - c,
        {
            let s = xorshift_star_exec(self.state);
            self.state = s;
            let rem: u64 = s % (2 * SCALE as u64);
            let v: Sample = rem as i64 - SCALE;
            proof {
                assert(v == noise_value(s));
            }
            self.output.set(c, v);
            c = c + 1;
        }
        proof {
            assert(self@ =~= old(self)@.step_spec(_input@));
        }
    }
}

} // verus!
