//! Convolution: sliding-window products.
//!
//! `Convolution` keeps a window of pairwise products `x * k` and emits
//! the window's sum.  `ConvolutionM` keeps a window of the input signal
//! and emits its dot product with a per-frame kernel.
//!
//! Sources to connect: input and kernel for `Convolution`; input plus
//! one source per kernel tap for `ConvolutionM`.

use crate::sample::{fx_mul, fx_mul_spec, sat, Sample};
use std::collections::VecDeque;
use vstd::prelude::*;

verus! {

/// The sum of a window, each addition saturating.
pub open spec fn sum_sat(s: Seq<Sample>) -> int
    decreases s.len(),
{
    if s.len() == 0 {
        0
    } else {
        sat(sum_sat(s.drop_last()) + s.last())
    }
}

/// The dot product of two windows of equal length, products and
/// additions saturating.
pub open spec fn dot_sat(a: Seq<Sample>, b: Seq<Sample>) -> int
    recommends
        a.len() == b.len(),
    decreases a.len(),
{
    if a.len() == 0 {
        0
    } else {
        sat(dot_sat(a.drop_last(), b.drop_last()) + fx_mul_spec(
            a.last() as int,
            b.last() as int,
        ))
    }
}

/// The tap count a window size admits: the input count stays a byte.
pub open spec fn clamped_taps(ws: int) -> int {
    if ws > 254 {
        254
    } else {
        ws
    }
}

/// A window one frame later: the oldest entry gone, the new one at the
/// back.
pub open spec fn window_pushed(w: Seq<Sample>, x: Sample) -> Seq<Sample> {
    w.drop_first().push(x)
}

pub struct Convolution {
    pub windows: Vec<VecDeque<Sample>>,
    pub window_size: usize,
    pub output: Vec<Sample>,
}

#[verifier::ext_equal]
pub struct ConvolutionView {
    pub windows: Seq<Seq<Sample>>,
    pub window_size: int,
    pub output: Seq<Sample>,
}

impl View for Convolution {
    type V = ConvolutionView;

    open spec fn view(&self) -> ConvolutionView {
        ConvolutionView {
            windows: self.windows@.map_values(|b: VecDeque<Sample>| b@),
            window_size: self.window_size as int,
            output: self.output@,
        }
    }
}

impl ConvolutionView {
    pub open spec fn wf_spec(self) -> bool {
        &&& self.windows.len() == self.output.len()
        &&& self.window_size >= 1
        &&& forall|c: int|
            0 <= c < self.windows.len() ==> (#[trigger] self.windows[c]).len()
                == self.window_size
    }

    pub open spec fn out_spec(self) -> Seq<Sample> {
        self.output
    }

    pub open spec fn step_spec(self, input: Seq<Sample>) -> ConvolutionView {
        ConvolutionView {
            windows: Seq::new(
                self.windows.len(),
                |c: int| window_pushed(
                    self.windows[c],
                    fx_mul_spec(input[2 * c] as int, input[2 * c + 1] as int) as Sample,
                ),
            ),
            output: Seq::new(
                self.output.len(),
                |c: int| sum_sat(
                    window_pushed(
                        self.windows[c],
                        fx_mul_spec(input[2 * c] as int, input[2 * c + 1] as int) as Sample,
                    ),
                ) as Sample,
            ),
            ..self
        }
    }
}

fn zero_windows(channels: u8, window_size: usize) -> (r: Vec<VecDeque<Sample>>)
    ensures
        r@.len() == channels as int,
        forall|i: int|
            0 <= i < channels as int ==> (#[trigger] r@[i])@ == Seq::new(
                window_size as nat,
                |j: int| 0i64,
            ),
{
    let mut windows: Vec<VecDeque<Sample>> = Vec::new();
    let mut c: usize = 0;
    while c < channels as usize
        invariant
            c <= channels as usize,
            windows@.len() == c,
            forall|i: int|
                0 <= i < c ==> (#[trigger] windows@[i])@ == Seq::new(
                    window_size as nat,
                    |j: int| 0i64,
                ),
        decreases channels as usize - c,
    {
        let mut ring: VecDeque<Sample> = VecDeque::new();
        let mut j: usize = 0;
        while j < window_size
            invariant
                j <= window_size,
                ring@ == Seq::new(j as nat, |t: int| 0i64),
            decreases window_size - j,
        {
            ring.push_back(0);
            proof {
                assert(ring@ =~= Seq::new(j as nat + 1, |t: int| 0i64));
            }
            j = j + 1;
        }
        windows.push(ring);
        c = c + 1;
    }
    windows
}

impl Convolution {
    /// A window of at least one sample is kept, whatever size is asked.
    pub fn new(channels: u8, window_size: usize) -> (r: Convolution)
        ensures
            r@.wf_spec(),
            r@.out_spec() == Seq::new(channels as nat, |c: int| 0i64),
            r@.window_size == (if window_size >= 1 {
                window_size as int
            } else {
                1
            }),
            r@.windows.len() == channels as int,
            forall|c: int|
                0 <= c < channels as int ==> r@.windows[c] == Seq::new(
                    r@.window_size as nat,
                    |j: int| 0i64,
                ),
    {
        let ws: usize = if window_size < 1 {
            1
        } else {
            window_size
        };
        let r = Convolution {
            windows: zero_windows(channels, ws),
            window_size: ws,
            output: vec![0i64; channels as usize],
        };
        proof {
            assert(r@.out_spec() =~= Seq::new(channels as nat, |c: int| 0i64));
            assert forall|c: int| 0 <= c < channels as int implies (
            #[trigger] r@.windows[c]).len() == ws as int by {
                assert(r@.windows[c] == r.windows@[c]@);
            }
        }
        r
    }

    pub fn inputs(&self) -> (r: u8)
        ensures
            r == 2,
    {
        2
    }

    pub fn output(&self) -> (r: &Vec<Sample>)
        ensures
            r@ == self@.out_spec(),
    {
        &self.output
    }

    #[verifier::loop_isolation(false)]
    pub fn sample(&mut self, input: &[Sample])
        requires
            old(self)@.wf_spec(),
            input@.len() >= 2 * old(self)@.output.len(),
        ensures
            final(self)@ == old(self)@.step_spec(input@),
            final(self)@.wf_spec(),
    {
        let channels: usize = self.output.len();
        let avail: usize = input.len();
        let ghost wins0 = self@.windows;
        let ghost out0 = self.output@;
        let ghost ws0 = self@.window_size;
        let mut c: usize = 0;
        while c < channels
            invariant
                c <= channels,
                self.output@.len() == channels,
                self.windows@.len() == channels,
                wins0.len() == channels,
                input@.len() >= 2 * channels,
                avail == input@.len(),
                self.window_size == ws0,
                self.window_size >= 1,
                forall|j: int| c <= j < channels ==> self.output@[j] == out0[j],
                forall|j: int|
                    c <= j < channels ==> (#[trigger] self.windows@[j])@ == wins0[j],
                forall|j: int| 0 <= j < channels ==> (#[trigger] wins0[j]).len() == ws0,
                forall|j: int|
                    0 <= j < c ==> (#[trigger] self.windows@[j])@ == window_pushed(
                        wins0[j],
                        fx_mul_spec(input@[2 * j] as int, input@[2 * j + 1] as int) as Sample,
                    ),
                forall|j: int|
                    0 <= j < c ==> self.output@[j] == sum_sat(
                        window_pushed(
                            wins0[j],
                            fx_mul_spec(
                                input@[2 * j] as int,
                                input@[2 * j + 1] as int,
                            ) as Sample,
                        ),
                    ),
            decreases channels - c,
        {
            let x = input[2 * c];
            let k = input[2 * c + 1];
            let prod = fx_mul(x, k);
            let ghost wins_before = self.windows@;
            let mut ring: VecDeque<Sample> = VecDeque::new();
            core::mem::swap(&mut ring, &mut self.windows[c]);
            proof {
                assert(ring@ == wins0[c as int]);
            }
            ring.pop_front();
            ring.push_back(prod);
            proof {
                assert(ring@ =~= window_pushed(wins0[c as int], prod));
            }
            let ghost wseq = ring@;
            let wlen: usize = self.window_size;
            let mut acc: Sample = 0;
            let mut j: usize = 0;
            while j < wlen
                invariant
                    j <= wlen,
                    ring@ == wseq,
                    wseq.len() == wlen,
                    acc == sum_sat(wseq.take(j as int)),
                decreases wlen - j,
            {
                let v = ring[j];
                proof {
                    assert(wseq.take(j as int + 1).drop_last() =~= wseq.take(j as int));
                    assert(wseq.take(j as int + 1).last() == wseq[j as int]);
                }
                acc = crate::sample::fx_add(acc, v);
                j = j + 1;
            }
            proof {
                assert(wseq.take(wlen as int) =~= wseq);
            }
            self.windows.set(c, ring);
            self.output.set(c, acc);
            proof {
                assert(self.windows@ =~= wins_before.update(c as int, self.windows@[c as int]));
                assert forall|j: int| 0 <= j < channels && j != c implies (
                #[trigger] self.windows@[j])@ == wins_before[j]@ by {}
            }
            c = c + 1;
        }
        proof {
            assert(self@ =~= old(self)@.step_spec(input@));
        }
    }
}

pub struct ConvolutionM {
    pub windows: Vec<VecDeque<Sample>>,
    pub window_size: usize,
    pub output: Vec<Sample>,
}

#[verifier::ext_equal]
pub struct ConvolutionMView {
    pub windows: Seq<Seq<Sample>>,
    pub window_size: int,
    pub output: Seq<Sample>,
}

impl View for ConvolutionM {
    type V = ConvolutionMView;

    open spec fn view(&self) -> ConvolutionMView {
        ConvolutionMView {
            windows: self.windows@.map_values(|b: VecDeque<Sample>| b@),
            window_size: self.window_size as int,
            output: self.output@,
        }
    }
}

impl ConvolutionMView {
    pub open spec fn wf_spec(self) -> bool {
        &&& self.windows.len() == self.output.len()
        &&& 1 <= self.window_size <= 254
        &&& forall|c: int|
            0 <= c < self.windows.len() ==> (#[trigger] self.windows[c]).len()
                == self.window_size
    }

    pub open spec fn out_spec(self) -> Seq<Sample> {
        self.output
    }

    /// The kernel for channel `c`: the taps after the signal slot in
    /// the channel's chunk of the packed buffer.
    pub open spec fn kernel_at(self, input: Seq<Sample>, c: int) -> Seq<Sample> {
        Seq::new(
            self.window_size as nat,
            |j: int| input[(1 + self.window_size) * c + 1 + j],
        )
    }

    pub open spec fn step_spec(self, input: Seq<Sample>) -> ConvolutionMView {
        ConvolutionMView {
            windows: Seq::new(
                self.windows.len(),
                |c: int| window_pushed(self.windows[c], input[(1 + self.window_size) * c]),
            ),
            output: Seq::new(
                self.output.len(),
                |c: int| dot_sat(
                    window_pushed(self.windows[c], input[(1 + self.window_size) * c]),
                    self.kernel_at(input, c),
                ) as Sample,
            ),
            ..self
        }
    }
}

impl ConvolutionM {
    /// The window is clamped into `[1, 254]` so that the input count
    /// stays a byte.
    pub fn new(channels: u8, window_size: usize) -> (r: ConvolutionM)
        ensures
            r@.wf_spec(),
            r@.out_spec() == Seq::new(channels as nat, |c: int| 0i64),
            r@.window_size == (if window_size < 1 {
                1int
            } else if window_size > 254 {
                254int
            } else {
                window_size as int
            }),
            r@.windows.len() == channels as int,
            forall|c: int|
                0 <= c < channels as int ==> r@.windows[c] == Seq::new(
                    r@.window_size as nat,
                    |j: int| 0i64,
                ),
    {
        let ws: usize = if window_size < 1 {
            1
        } else if window_size > 254 {
            254
        } else {
            window_size
        };
        let r = ConvolutionM {
            windows: zero_windows(channels, ws),
            window_size: ws,
            output: vec![0i64; channels as usize],
        };
        proof {
            assert(r@.out_spec() =~= Seq::new(channels as nat, |c: int| 0i64));
            assert forall|c: int| 0 <= c < channels as int implies (
            #[trigger] r@.windows[c]).len() == ws as int by {
                assert(r@.windows[c] == r.windows@[c]@);
            }
        }
        r
    }

    pub fn inputs(&self) -> (r: u8)
        ensures
            r as int == 1 + clamped_taps(self@.window_size),
    {
        let ws: usize = if self.window_size > 254 {
            254
        } else {
            self.window_size
        };
        1 + ws as u8
    }

    pub fn output(&self) -> (r: &Vec<Sample>)
        ensures
            r@ == self@.out_spec(),
    {
        &self.output
    }

    #[verifier::loop_isolation(false)]
    pub fn sample(&mut self, input: &[Sample])
        requires
            old(self)@.wf_spec(),
            input@.len() >= (1 + old(self)@.window_size) * old(self)@.output.len(),
        ensures
            final(self)@ == old(self)@.step_spec(input@),
            final(self)@.wf_spec(),
    {
        let channels: usize = self.output.len();
        let avail: usize = input.len();
        let ws: usize = self.window_size;
        let ghost wins0 = self@.windows;
        let ghost out0 = self.output@;
        let ghost view0 = self@;
        let mut c: usize = 0;
        while c < channels
            invariant
                c <= channels,
                self.output@.len() == channels,
                self.windows@.len() == channels,
                wins0.len() == channels,
                input@.len() >= (1 + ws) * channels,
                avail == input@.len(),
                self.window_size == view0.window_size,
                ws == self.window_size,
                1 <= ws <= 254,
                view0.window_size == ws,
                forall|j: int| c <= j < channels ==> self.output@[j] == out0[j],
                forall|j: int|
                    c <= j < channels ==> (#[trigger] self.windows@[j])@ == wins0[j],
                forall|j: int| 0 <= j < channels ==> (#[trigger] wins0[j]).len() == ws,
                forall|j: int|
                    0 <= j < c ==> (#[trigger] self.windows@[j])@ == window_pushed(
                        wins0[j],
                        input@[(1 + ws) * j],
                    ),
                forall|j: int|
                    0 <= j < c ==> self.output@[j] == dot_sat(
                        window_pushed(wins0[j], input@[(1 + ws) * j]),
                        view0.kernel_at(input@, j),
                    ),
            decreases channels - c,
        {
            proof {
                assert((1 + ws) * (c + 1) <= (1 + ws) * channels) by (nonlinear_arith)
                    requires
                        c + 1 <= channels,
                        ws >= 0,
                ;
                assert((1 + ws) * (c + 1) == (1 + ws) * c + (1 + ws)) by (nonlinear_arith);
            }
            let base: usize = (1 + ws) * c;
            let x = input[base];
            let ghost wins_before = self.windows@;
            let mut ring: VecDeque<Sample> = VecDeque::new();
            core::mem::swap(&mut ring, &mut self.windows[c]);
            proof {
                assert(ring@ == wins0[c as int]);
            }
            ring.pop_front();
            ring.push_back(x);
            proof {
                assert(ring@ =~= window_pushed(wins0[c as int], x));
            }
            let ghost wseq = ring@;
            let ghost kernel = view0.kernel_at(input@, c as int);
            proof {
                assert(kernel =~= Seq::new(ws as nat, |t: int| input@[base + 1 + t]));
            }
            let mut acc: Sample = 0;
            let mut j: usize = 0;
            while j < ws
                invariant
                    j <= ws,
                    ring@ == wseq,
                    wseq.len() == ws,
                    base == (1 + ws) * c,
                    base + ws < avail,
                    avail == input@.len(),
                    kernel == Seq::new(ws as nat, |t: int| input@[base + 1 + t]),
                    acc == dot_sat(wseq.take(j as int), kernel.take(j as int)),
                decreases ws - j,
            {
                let v = ring[j];
                let kv = input[base + 1 + j];
                proof {
                    assert(wseq.take(j as int + 1).drop_last() =~= wseq.take(j as int));
                    assert(kernel.take(j as int + 1).drop_last() =~= kernel.take(j as int));
                    assert(wseq.take(j as int + 1).last() == wseq[j as int]);
                    assert(kernel.take(j as int + 1).last() == kernel[j as int]);
                }
                acc = crate::sample::fx_add(acc, fx_mul(v, kv));
                j = j + 1;
            }
            proof {
                assert(wseq.take(ws as int) =~= wseq);
                assert(kernel.take(ws as int) =~= kernel);
            }
            self.windows.set(c, ring);
            self.output.set(c, acc);
            proof {
                assert forall|j: int| 0 <= j < channels && j != c implies (
                #[trigger] self.windows@[j])@ == wins_before[j]@ by {}
            }
            c = c + 1;
        }
        proof {
            assert(self@ =~= old(self)@.step_spec(input@));
        }
    }
}

} // verus!
