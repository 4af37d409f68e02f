//! Constant module: outputs the same given sample in all channels,
//! every frame, forever.
//!
//! Sources to connect: none required.

use crate::sample::Sample;
use vstd::prelude::*;

verus! {

pub struct Constant {
    pub values: Vec<Sample>,
}

#[verifier::ext_equal]
pub struct ConstantView {
    pub values: Seq<Sample>,
}

impl View for Constant {
    type V = ConstantView;

    open spec fn view(&self) -> ConstantView {
        ConstantView { values: self.values@ }
    }
}

impl ConstantView {
    pub open spec fn wf_spec(self) -> bool {
        true
    }

    pub open spec fn out_spec(self) -> Seq<Sample> {
        self.values
    }

    /// Sampling never changes a Constant.
    pub open spec fn step_spec(self, input: Seq<Sample>) -> ConstantView {
        self
    }
}

impl Constant {
    pub fn new(channels: u8, x: Sample) -> (r: Constant)
        ensures
            r@.out_spec() == Seq::new(channels as nat, |c: int| x),
    {
        let r = Constant { values: vec![x; channels as usize] };
        proof {
            assert(r@.out_spec() =~= Seq::new(channels as nat, |c: int| x));
        }
        r
    }

    pub fn inputs(&self) -> (r: u8)
        ensures
            r == 0,
    {
        0
    }

    pub fn output(&self) -> (r: &Vec<Sample>)
        ensures
            r@ == self@.out_spec(),
    {
        &self.values
    }

    pub fn sample(&mut self, _input: &[Sample])
        ensures
            final(self)@ == old(self)@.step_spec(_input@),
    {
    }
}

} // verus!
