//! Fn1 / Fn2 / Fn3 modules: apply a pure function of one, two or three
//! samples pointwise per channel.
//!
//! Sources to connect: one per argument of the function.

use crate::pure::{apply1, apply1_spec, apply2, apply2_spec, apply3, apply3_spec, BinaryFn,
    TernaryFn, UnaryFn};
use crate::sample::Sample;
use vstd::prelude::*;

verus! {

pub struct Fn1 {
    pub ys: Vec<Sample>,
    pub f: UnaryFn,
}

#[verifier::ext_equal]
pub struct Fn1View {
    pub ys: Seq<Sample>,
    pub f: UnaryFn,
}

impl View for Fn1 {
    type V = Fn1View;

    open spec fn view(&self) -> Fn1View {
        Fn1View { ys: self.ys@, f: self.f }
    }
}

impl Fn1View {
    pub open spec fn out_spec(self) -> Seq<Sample> {
        self.ys
    }

    pub open spec fn step_spec(self, input: Seq<Sample>) -> Fn1View {
        Fn1View {
            ys: Seq::new(self.ys.len(), |c: int| apply1_spec(self.f, input[c] as int) as Sample),
            ..self
        }
    }
}

impl Fn1 {
    pub fn new(channels: u8, f: UnaryFn) -> (r: Fn1)
        ensures
            r@.out_spec() == Seq::new(channels as nat, |c: int| 0i64),
            r@.f == f,
    {
        let r = Fn1 { ys: vec![0i64; channels as usize], f };
        proof {
            assert(r@.out_spec() =~= Seq::new(channels as nat, |c: int| 0i64));
        }
        r
    }

    pub fn inputs(&self) -> (r: u8)
        ensures
            r == 1,
    {
        1
    }

    pub fn output(&self) -> (r: &Vec<Sample>)
        ensures
            r@ == self@.out_spec(),
    {
        &self.ys
    }

    pub fn sample(&mut self, input: &[Sample])
        requires
            input@.len() >= old(self)@.ys.len(),
        ensures
            final(self)@ == old(self)@.step_spec(input@),
    {
        let channels: usize = self.ys.len();
        let avail: usize = input.len();
        let mut c: usize = 0;
        while c < channels
            invariant
                c <= channels,
                self.ys@.len() == channels,
                input@.len() >= channels,
                avail == input@.len(),
                self.f == old(self).f,
                forall|j: int|
                    0 <= j < c ==> self.ys@[j] == apply1_spec(old(self)@.f, input@[j] as int),
            decreases channels - c,
        {
            let v = apply1(self.f, input[c]);
            self.ys.set(c, v);
            c = c + 1;
        }
        proof {
            assert(self@ =~= old(self)@.step_spec(input@));
        }
    }
}

pub struct Fn2 {
    pub ys: Vec<Sample>,
    pub f: BinaryFn,
}

#[verifier::ext_equal]
pub struct Fn2View {
    pub ys: Seq<Sample>,
    pub f: BinaryFn,
}

impl View for Fn2 {
    type V = Fn2View;

    open spec fn view(&self) -> Fn2View {
        Fn2View { ys: self.ys@, f: self.f }
    }
}

impl Fn2View {
    pub open spec fn out_spec(self) -> Seq<Sample> {
        self.ys
    }

    pub open spec fn step_spec(self, input: Seq<Sample>) -> Fn2View {
        Fn2View {
            ys: Seq::new(
                self.ys.len(),
                |c: int| apply2_spec(self.f, input[2 * c] as int, input[2 * c + 1] as int) as Sample,
            ),
            ..self
        }
    }
}

impl Fn2 {
    pub fn new(channels: u8, f: BinaryFn) -> (r: Fn2)
        ensures
            r@.out_spec() == Seq::new(channels as nat, |c: int| 0i64),
            r@.f == f,
    {
        let r = Fn2 { ys: vec![0i64; channels as usize], f };
        proof {
            assert(r@.out_spec() =~= Seq::new(channels as nat, |c: int| 0i64));
        }
        r
    }

    pub fn inputs(&self) -> (r: u8)
        ensures
            r == 2,
    {
        2
    }

    pub fn output(&self) -> (r: &Vec<Sample>)
        ensures
            r@ == self@.out_spec(),
    {
        &self.ys
    }

    pub fn sample(&mut self, input: &[Sample])
        requires
            input@.len() >= 2 * old(self)@.ys.len(),
        ensures
            final(self)@ == old(self)@.step_spec(input@),
    {
        let channels: usize = self.ys.len();
        let avail: usize = input.len();
        let mut c: usize = 0;
        while c < channels
            invariant
                c <= channels,
                self.ys@.len() == channels,
                input@.len() >= 2 * channels,
                avail == input@.len(),
                self.f == old(self).f,
                forall|j: int|
                    0 <= j < c ==> self.ys@[j] == apply2_spec(
                        old(self)@.f,
                        input@[2 * j] as int,
                        input@[2 * j + 1] as int,
                    ),
            decreases channels - c,
        {
            let v = apply2(self.f, input[2 * c], input[2 * c + 1]);
            self.ys.set(c, v);
            c = c + 1;
        }
        proof {
            assert(self@ =~= old(self)@.step_spec(input@));
        }
    }
}

pub struct Fn3 {
    pub ys: Vec<Sample>,
    pub f: TernaryFn,
}

#[verifier::ext_equal]
pub struct Fn3View {
    pub ys: Seq<Sample>,
    pub f: TernaryFn,
}

impl View for Fn3 {
    type V = Fn3View;

    open spec fn view(&self) -> Fn3View {
        Fn3View { ys: self.ys@, f: self.f }
    }
}

impl Fn3View {
    pub open spec fn out_spec(self) -> Seq<Sample> {
        self.ys
    }

    pub open spec fn step_spec(self, input: Seq<Sample>) -> Fn3View {
        Fn3View {
            ys: Seq::new(
                self.ys.len(),
                |c: int| apply3_spec(
                    self.f,
                    input[3 * c] as int,
                    input[3 * c + 1] as int,
                    input[3 * c + 2] as int,
                ) as Sample,
            ),
            ..self
        }
    }
}

impl Fn3 {
    pub fn new(channels: u8, f: TernaryFn) -> (r: Fn3)
        ensures
            r@.out_spec() == Seq::new(channels as nat, |c: int| 0i64),
            r@.f == f,
    {
        let r = Fn3 { ys: vec![0i64; channels as usize], f };
        proof {
            assert(r@.out_spec() =~= Seq::new(channels as nat, |c: int| 0i64));
        }
        r
    }

    pub fn inputs(&self) -> (r: u8)
        ensures
            r == 3,
    {
        3
    }

    pub fn output(&self) -> (r: &Vec<Sample>)
        ensures
            r@ == self@.out_spec(),
    {
        &self.ys
    }

    pub fn sample(&mut self, input: &[Sample])
        requires
            input@.len() >= 3 * old(self)@.ys.len(),
        ensures
            final(self)@ == old(self)@.step_spec(input@),
    {
        let channels: usize = self.ys.len();
        let avail: usize = input.len();
        let mut c: usize = 0;
        while c < channels
            invariant
                c <= channels,
                self.ys@.len() == channels,
                input@.len() >= 3 * channels,
                avail == input@.len(),
                self.f == old(self).f,
                forall|j: int|
                    0 <= j < c ==> self.ys@[j] == apply3_spec(
                        old(self)@.f,
                        input@[3 * j] as int,
                        input@[3 * j + 1] as int,
                        input@[3 * j + 2] as int,
                    ),
            decreases channels - c,
        {
            let v = apply3(self.f, input[3 * c], input[3 * c + 1], input[3 * c + 2]);
            self.ys.set(c, v);
            c = c + 1;
        }
        proof {
            assert(self@ =~= old(self)@.step_spec(input@));
        }
    }
}

} // verus!
