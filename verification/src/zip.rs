//! Zip: with one source per channel, emits on channel `c` the first
//! channel of source `c` — the first `channels` slots of the packed
//! buffer, by the channel-major layout.
//!
//! Sources to connect: as many as there are channels.

use crate::input::input_copied;
use crate::sample::Sample;
use vstd::prelude::*;

verus! {

pub struct Zip {
    pub channels: u8,
    pub output: Vec<Sample>,
}

#[verifier::ext_equal]
pub struct ZipView {
    pub channels: nat,
    pub output: Seq<Sample>,
}

impl View for Zip {
    type V = ZipView;

    open spec fn view(&self) -> ZipView {
        ZipView { channels: self.channels as nat, output: self.output@ }
    }
}

impl ZipView {
    pub open spec fn wf_spec(self) -> bool {
        self.output.len() == self.channels
    }

    pub open spec fn out_spec(self) -> Seq<Sample> {
        self.output
    }

    pub open spec fn step_spec(self, input: Seq<Sample>) -> ZipView {
        ZipView { output: input_copied(input, self.output.len()), ..self }
    }
}

impl Zip {
    pub fn new(channels: u8) -> (r: Zip)
        ensures
            r@.wf_spec(),
            r@.channels == channels as nat,
            r@.out_spec() == Seq::new(channels as nat, |c: int| 0i64),
    {
        let r = Zip { channels, output: vec![0i64; channels as usize] };
        proof {
            assert(r@.out_spec() =~= Seq::new(channels as nat, |c: int| 0i64));
        }
        r
    }

    pub fn inputs(&self) -> (r: u8)
        ensures
            r == self.channels,
    {
        self.channels
    }

    pub fn output(&self) -> (r: &Vec<Sample>)
        ensures
            r@ == self@.out_spec(),
    {
        &self.output
    }

    pub fn sample(&mut self, input: &[Sample])
        ensures
            final(self)@ == old(self)@.step_spec(input@),
    {
        let channels: usize = self.output.len();
        let avail: usize = input.len();
        let mut c: usize = 0;
        while c < channels
            invariant
                c <= channels,
                self.output@.len() == channels,
                self.channels == old(self).channels,
                avail == input@.len(),
                forall|j: int|
                    0 <= j < c ==> self.output@[j] == (if j < input@.len() {
                        input@[j]
                    } else {
                        0i64
                    }),
            decreases channels - c,
        {
            if c < avail {
                let v: Sample = input[c];
                self.output.set(c, v);
            } else {
                self.output.set(c, 0);
            }
            c = c + 1;
        }
        proof {
            assert(self@ =~= old(self)@.step_spec(input@));
        }
    }
}

} // verus!
