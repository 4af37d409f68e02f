//! BiQuad filters in the Audio-EQ-Cookbook form: per frame and channel,
//! coefficients are derived from the cut-off frequency and resonance,
//! and one direct-form step updates the two-sample history.
//!
//! Sources to connect: input, cut-off frequency, Q.

use crate::pure::{cos_spec, sine_spec};
use crate::sample::{
    divi_spec, fx_add, fx_div, fx_div_spec, fx_divi, fx_mul, fx_mul_spec, fx_sub, sat, Sample,
    SCALE,
};
use vstd::prelude::*;

verus! {

/// Which cookbook coefficient recipe a BiQuad runs.
#[derive(Clone, Copy, PartialEq, Eq, Structural)]
pub enum BiQuadKind {
    LowPass,
    HighPass,
}

/// The cookbook low-pass coefficients `(b0, b1, b2, a0, a1, a2)` from
/// the sine and cosine of the pole angle and the bandwidth term.
pub open spec fn lpf_coefficients_spec(cos_o: int, alpha: int) -> (int, int, int, int, int, int) {
    let b1 = sat(SCALE - cos_o);
    let b0 = divi_spec(b1, 2);
    (b0, b1, b0, sat(SCALE + alpha), sat(-sat(cos_o + cos_o)), sat(SCALE - alpha))
}

/// The cookbook high-pass coefficients.
pub open spec fn hpf_coefficients_spec(cos_o: int, alpha: int) -> (int, int, int, int, int, int) {
    let k = sat(SCALE + cos_o);
    let b0 = divi_spec(k, 2);
    (b0, sat(-k), b0, sat(SCALE + alpha), sat(-sat(cos_o + cos_o)), sat(SCALE - alpha))
}

pub fn make_lpf_coefficients(_sin_o: Sample, cos_o: Sample, alpha: Sample) -> (r: (
    Sample,
    Sample,
    Sample,
    Sample,
    Sample,
    Sample,
))
    ensures
        (r.0 as int, r.1 as int, r.2 as int, r.3 as int, r.4 as int, r.5 as int)
            == lpf_coefficients_spec(cos_o as int, alpha as int),
{
    let b1 = fx_sub(SCALE, cos_o);
    let b0 = fx_divi(b1, 2);
    (b0, b1, b0, fx_add(SCALE, alpha), fx_sub(0, fx_add(cos_o, cos_o)), fx_sub(SCALE, alpha))
}

pub fn make_hpf_coefficients(_sin_o: Sample, cos_o: Sample, alpha: Sample) -> (r: (
    Sample,
    Sample,
    Sample,
    Sample,
    Sample,
    Sample,
))
    ensures
        (r.0 as int, r.1 as int, r.2 as int, r.3 as int, r.4 as int, r.5 as int)
            == hpf_coefficients_spec(cos_o as int, alpha as int),
{
    let k = fx_add(SCALE, cos_o);
    let b0 = fx_divi(k, 2);
    (b0, fx_sub(0, k), b0, fx_add(SCALE, alpha), fx_sub(0, fx_add(cos_o, cos_o)), fx_sub(
        SCALE,
        alpha,
    ))
}

/// The coefficients a kind derives from the pole angle and Q.
pub open spec fn biquad_coefficients(kind: BiQuadKind, cos_o: int, alpha: int) -> (
    int,
    int,
    int,
    int,
    int,
    int,
) {
    match kind {
        BiQuadKind::LowPass => lpf_coefficients_spec(cos_o, alpha),
        BiQuadKind::HighPass => hpf_coefficients_spec(cos_o, alpha),
    }
}

/// The pole phase of a cut-off frequency, `f / rate` periods.
pub open spec fn pole_phase(f: int, phase_per_hertz: int) -> int {
    fx_mul_spec(f, phase_per_hertz)
}

/// One direct-form step: the new output from the input and the
/// two-frame history.
pub open spec fn biquad_next(
    kind: BiQuadKind,
    x: int,
    f: int,
    q: int,
    x1: int,
    x2: int,
    y1: int,
    y2: int,
    phase_per_hertz: int,
) -> int {
    let w = pole_phase(f, phase_per_hertz);
    let sin_o = sine_spec(w);
    let cos_o = cos_spec(w);
    let alpha = fx_div_spec(sin_o, sat(q + q));
    let co = biquad_coefficients(kind, cos_o, alpha);
    let num = sat(
        sat(sat(sat(fx_mul_spec(x, co.0) + fx_mul_spec(x1, co.1)) + fx_mul_spec(x2, co.2))
            - fx_mul_spec(y1, co.4)) - fx_mul_spec(y2, co.5),
    );
    fx_div_spec(num, co.3)
}

fn biquad_channel(
    kind: BiQuadKind,
    x: Sample,
    f: Sample,
    q: Sample,
    x1: Sample,
    x2: Sample,
    y1: Sample,
    y2: Sample,
    phase_per_hertz: Sample,
) -> (r: Sample)
    ensures
        r == biquad_next(
            kind,
            x as int,
            f as int,
            q as int,
            x1 as int,
            x2 as int,
            y1 as int,
            y2 as int,
            phase_per_hertz as int,
        ),
{
    let w = fx_mul(f, phase_per_hertz);
    let sin_o = crate::pure::sine_fx(w);
    let cos_o = crate::pure::cos_fx(w);
    let alpha = fx_div(sin_o, fx_add(q, q));
    let co = match kind {
        BiQuadKind::LowPass => make_lpf_coefficients(sin_o, cos_o, alpha),
        BiQuadKind::HighPass => make_hpf_coefficients(sin_o, cos_o, alpha),
    };
    let num = fx_sub(
        fx_sub(fx_add(fx_add(fx_mul(x, co.0), fx_mul(x1, co.1)), fx_mul(x2, co.2)), fx_mul(
            y1,
            co.4,
        )),
        fx_mul(y2, co.5),
    );
    fx_div(num, co.3)
}

pub struct BiQuad {
    pub kind: BiQuadKind,
    pub output: Vec<Sample>,
    pub phase_per_hertz: Sample,
    pub x1: Vec<Sample>,
    pub x2: Vec<Sample>,
    pub y2: Vec<Sample>,
}

#[verifier::ext_equal]
pub struct BiQuadView {
    pub kind: BiQuadKind,
    pub output: Seq<Sample>,
    pub phase_per_hertz: int,
    pub x1: Seq<Sample>,
    pub x2: Seq<Sample>,
    pub y2: Seq<Sample>,
}

impl View for BiQuad {
    type V = BiQuadView;

    open spec fn view(&self) -> BiQuadView {
        BiQuadView {
            kind: self.kind,
            output: self.output@,
            phase_per_hertz: self.phase_per_hertz as int,
            x1: self.x1@,
            x2: self.x2@,
            y2: self.y2@,
        }
    }
}

impl BiQuadView {
    pub open spec fn wf_spec(self) -> bool {
        &&& self.x1.len() == self.output.len()
        &&& self.x2.len() == self.output.len()
        &&& self.y2.len() == self.output.len()
    }

    pub open spec fn out_spec(self) -> Seq<Sample> {
        self.output
    }

    pub open spec fn step_spec(self, input: Seq<Sample>) -> BiQuadView {
        BiQuadView {
            output: Seq::new(
                self.output.len(),
                |c: int| biquad_next(
                    self.kind,
                    input[3 * c] as int,
                    input[3 * c + 1] as int,
                    input[3 * c + 2] as int,
                    self.x1[c] as int,
                    self.x2[c] as int,
                    self.output[c] as int,
                    self.y2[c] as int,
                    self.phase_per_hertz,
                ) as Sample,
            ),
            x1: Seq::new(self.output.len(), |c: int| input[3 * c]),
            x2: Seq::new(self.output.len(), |c: int| self.x1[c]),
            y2: Seq::new(self.output.len(), |c: int| self.output[c]),
            ..self
        }
    }
}

impl BiQuad {
    pub fn new(channels: u8, sample_rate: u32, kind: BiQuadKind) -> (r: BiQuad)
        ensures
            r@.wf_spec(),
            r@.out_spec() == Seq::new(channels as nat, |c: int| 0i64),
            r@.kind == kind,
            r@.phase_per_hertz == divi_spec(SCALE as int, sample_rate as int),
            r@.x1 == Seq::new(channels as nat, |c: int| 0i64),
            r@.x2 == Seq::new(channels as nat, |c: int| 0i64),
            r@.y2 == Seq::new(channels as nat, |c: int| 0i64),
    {
        let tor = fx_divi(SCALE, sample_rate as i64);
        let r = BiQuad {
            kind,
            output: vec![0i64; channels as usize],
            phase_per_hertz: tor,
            x1: vec![0i64; channels as usize],
            x2: vec![0i64; channels as usize],
            y2: vec![0i64; channels as usize],
        };
        proof {
            assert(r@.out_spec() =~= Seq::new(channels as nat, |c: int| 0i64));
        }
        r
    }

    pub fn inputs(&self) -> (r: u8)
        ensures
            r == 3,
    {
        3
    }

    pub fn output(&self) -> (r: &Vec<Sample>)
        ensures
            r@ == self@.out_spec(),
    {
        &self.output
    }

    pub fn sample(&mut self, input: &[Sample])
        requires
            old(self)@.wf_spec(),
            input@.len() >= 3 * old(self)@.output.len(),
        ensures
            final(self)@ == old(self)@.step_spec(input@),
            final(self)@.wf_spec(),
    {
        let channels: usize = self.output.len();
        let avail: usize = input.len();
        let mut c: usize = 0;
        while c < channels
            invariant
                c <= channels,
                self.output@.len() == channels,
                self.x1@.len() == channels,
                self.x2@.len() == channels,
                self.y2@.len() == channels,
                input@.len() >= 3 * channels,
                avail == input@.len(),
                self.kind == old(self).kind,
                self.phase_per_hertz == old(self).phase_per_hertz,
                forall|j: int|
                    c <= j < channels ==> self.output@[j] == old(self).output@[j] && self.x1@[j]
                        == old(self).x1@[j] && self.x2@[j] == old(self).x2@[j] && self.y2@[j]
                        == old(self).y2@[j],
                forall|j: int|
                    0 <= j < c ==> {
                        &&& self.output@[j] == biquad_next(
                            old(self).kind,
                            input@[3 * j] as int,
                            input@[3 * j + 1] as int,
                            input@[3 * j + 2] as int,
                            old(self).x1@[j] as int,
                            old(self).x2@[j] as int,
                            old(self).output@[j] as int,
                            old(self).y2@[j] as int,
                            old(self)@.phase_per_hertz,
                        )
                        &&& self.x1@[j] == input@[3 * j]
                        &&& self.x2@[j] == old(self).x1@[j]
                        &&& self.y2@[j] == old(self).output@[j]
                    },
            decreases channels - c,
        {
            let x = input[3 * c];
            let f = input[3 * c + 1];
            let q = input[3 * c + 2];
            let x1 = self.x1[c];
            let x2 = self.x2[c];
            let y1 = self.output[c];
            let y2 = self.y2[c];
            let y = biquad_channel(self.kind, x, f, q, x1, x2, y1, y2, self.phase_per_hertz);
            self.output.set(c, y);
            self.x1.set(c, x);
            self.x2.set(c, x1);
            self.y2.set(c, y1);
            c = c + 1;
        }
        proof {
            assert(self@ =~= old(self)@.step_spec(input@));
        }
    }
}

} // verus!
