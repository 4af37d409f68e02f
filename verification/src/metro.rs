//! Metronomes: emit `1.0` on the frames where a new period begins and
//! `0.0` elsewhere.
//!
//! `Metro` takes a frequency and fires every `sample_rate / frequency`
//! frames, the first fire on frame zero.  `DMetro` takes the period in
//! seconds directly.  The `..Hold` variants freeze the rate parameter
//! at the previous trigger, so changes apply only from the next period
//! on; they first fire once the initial period has elapsed.
//!
//! Sources to connect: frequency (or period).

use crate::sample::{Sample, SCALE};
use vstd::prelude::*;

verus! {

/// The period in frames of a metronome running at `f` hertz: infinite
/// (never fires again) at zero, instant for negative rates.
pub open spec fn metro_period(rate: int, f: int) -> int {
    if f == 0 {
        u64::MAX as int
    } else if f < 0 {
        0
    } else {
        let p = (rate * SCALE) / f;
        if p > u64::MAX {
            u64::MAX as int
        } else {
            p
        }
    }
}

/// The period in frames for a period given in seconds: `rate * dt`
/// frames, clamped below at zero.
pub open spec fn dmetro_period(rate: int, dt: int) -> int {
    if dt <= 0 {
        0
    } else {
        let p = (rate * dt) / (SCALE as int);
        if p > u64::MAX {
            u64::MAX as int
        } else {
            p
        }
    }
}

/// Frames advance one per step and stop at the largest representable
/// frame number.
pub open spec fn next_frame(frame: int) -> int {
    if frame == u64::MAX {
        frame
    } else {
        frame + 1
    }
}

fn metro_period_exec(rate: i64, f: Sample) -> (r: u64)
    requires
        0 <= rate <= u32::MAX,
    ensures
        r == metro_period(rate as int, f as int),
{
    if f == 0 {
        u64::MAX
    } else if f < 0 {
        0
    } else {
        assert((rate as u128) * (SCALE as u128) <= 0x1_0000_0000u128 * 0x1_0000_0000u128)
            by (nonlinear_arith)
            requires
                rate as u128 <= 0x1_0000_0000u128,
                SCALE as u128 <= 0x1_0000_0000u128,
        ;
        let p: u128 = (rate as u128 * SCALE as u128) / (f as u128);
        if p > u64::MAX as u128 {
            u64::MAX
        } else {
            p as u64
        }
    }
}

fn dmetro_period_exec(rate: i64, dt: Sample) -> (r: u64)
    requires
        0 <= rate <= u32::MAX,
    ensures
        r == dmetro_period(rate as int, dt as int),
{
    if dt <= 0 {
        0
    } else {
        assert((rate as u128) * (dt as u128) <= 0x1_0000_0000u128 * 0x8000_0000_0000_0000u128)
            by (nonlinear_arith)
            requires
                rate as u128 <= 0x1_0000_0000u128,
                dt as u128 <= 0x8000_0000_0000_0000u128,
        ;
        let p: u128 = (rate as u128 * dt as u128) / (SCALE as u128);
        if p > u64::MAX as u128 {
            u64::MAX
        } else {
            p as u64
        }
    }
}

pub struct Metro {
    pub output: Vec<Sample>,
    pub last_trigger: Vec<u64>,
    pub fired: Vec<bool>,
    pub frame_number: u64,
    pub sample_rate: i64,
}

#[verifier::ext_equal]
pub struct MetroView {
    pub output: Seq<Sample>,
    pub last_trigger: Seq<u64>,
    pub fired: Seq<bool>,
    pub frame_number: int,
    pub sample_rate: int,
}

impl View for Metro {
    type V = MetroView;

    open spec fn view(&self) -> MetroView {
        MetroView {
            output: self.output@,
            last_trigger: self.last_trigger@,
            fired: self.fired@,
            frame_number: self.frame_number as int,
            sample_rate: self.sample_rate as int,
        }
    }
}

/// A channel fires when it never has before, or when a whole period has
/// elapsed since its last trigger.
pub open spec fn metro_fires(fired: bool, frame: int, last: int, period: int) -> bool {
    !fired || frame - last >= period
}

impl MetroView {
    pub open spec fn wf_spec(self) -> bool {
        &&& self.last_trigger.len() == self.output.len()
        &&& self.fired.len() == self.output.len()
        &&& 0 <= self.sample_rate <= u32::MAX
        &&& 0 <= self.frame_number <= u64::MAX
        &&& forall|c: int|
            0 <= c < self.last_trigger.len() ==> 0 <= #[trigger] self.last_trigger[c]
                <= self.frame_number
    }

    pub open spec fn out_spec(self) -> Seq<Sample> {
        self.output
    }

    pub open spec fn fires_at(self, input: Seq<Sample>, c: int) -> bool {
        metro_fires(
            self.fired[c],
            self.frame_number,
            self.last_trigger[c] as int,
            metro_period(self.sample_rate, input[c] as int),
        )
    }

    pub open spec fn step_spec(self, input: Seq<Sample>) -> MetroView {
        MetroView {
            output: Seq::new(
                self.output.len(),
                |c: int| if self.fires_at(input, c) {
                    SCALE
                } else {
                    0
                },
            ),
            last_trigger: Seq::new(
                self.output.len(),
                |c: int| if self.fires_at(input, c) {
                    self.frame_number as u64
                } else {
                    self.last_trigger[c]
                },
            ),
            fired: Seq::new(self.output.len(), |c: int| self.fired[c] || self.fires_at(input, c)),
            frame_number: next_frame(self.frame_number),
            ..self
        }
    }
}

impl Metro {
    pub fn new(channels: u8, sample_rate: u32) -> (r: Metro)
        ensures
            r@.wf_spec(),
            r@.out_spec() == Seq::new(channels as nat, |c: int| 0i64),
            r@.frame_number == 0,
            r@.sample_rate == sample_rate as int,
            r@.last_trigger == Seq::new(channels as nat, |c: int| 0u64),
            r@.fired == Seq::new(channels as nat, |c: int| false),
    {
        let r = Metro {
            output: vec![0i64; channels as usize],
            last_trigger: vec![0u64; channels as usize],
            fired: vec![false; channels as usize],
            frame_number: 0,
            sample_rate: sample_rate as i64,
        };
        proof {
            assert(r@.out_spec() =~= Seq::new(channels as nat, |c: int| 0i64));
        }
        r
    }

    pub fn inputs(&self) -> (r: u8)
        ensures
            r == 1,
    {
        1
    }

    pub fn output(&self) -> (r: &Vec<Sample>)
        ensures
            r@ == self@.out_spec(),
    {
        &self.output
    }

    pub fn sample(&mut self, input: &[Sample])
        requires
            old(self)@.wf_spec(),
            input@.len() >= old(self)@.output.len(),
        ensures
            final(self)@ == old(self)@.step_spec(input@),
            final(self)@.wf_spec(),
    {
        let channels: usize = self.output.len();
        let avail: usize = input.len();
        let mut c: usize = 0;
        while c < channels
            invariant
                c <= channels,
                self.output@.len() == channels,
                self.last_trigger@.len() == channels,
                self.fired@.len() == channels,
                input@.len() >= channels,
                avail == input@.len(),
                self.frame_number == old(self).frame_number,
                self.sample_rate == old(self).sample_rate,
                0 <= self.sample_rate <= u32::MAX,
                forall|j: int|
                    c <= j < channels ==> self.output@[j] == old(self).output@[j]
                        && self.last_trigger@[j] == old(self).last_trigger@[j]
                        && self.fired@[j] == old(self).fired@[j],
                forall|j: int|
                    0 <= j < channels ==> 0 <= #[trigger] old(self).last_trigger@[j]
                        <= old(self).frame_number,
                forall|j: int|
                    0 <= j < c ==> {
                        &&& self.output@[j] == (if old(self)@.fires_at(input@, j) {
                            SCALE
                        } else {
                            0i64
                        })
                        &&& self.last_trigger@[j] == (if old(self)@.fires_at(input@, j) {
                            old(self).frame_number
                        } else {
                            old(self).last_trigger@[j]
                        })
                        &&& self.fired@[j] == (old(self).fired@[j] || old(self)@.fires_at(
                            input@,
                            j,
                        ))
                    },
            decreases channels - c,
        {
            let f = input[c];
            let period = metro_period_exec(self.sample_rate, f);
            let last = self.last_trigger[c];
            let was = self.fired[c];
            let fires = !was || self.frame_number - last >= period;
            if fires {
                self.output.set(c, SCALE);
                self.last_trigger.set(c, self.frame_number);
                self.fired.set(c, true);
            } else {
                self.output.set(c, 0);
            }
            c = c + 1;
        }
        if self.frame_number < u64::MAX {
            self.frame_number = self.frame_number + 1;
        }
        proof {
            assert(self@ =~= old(self)@.step_spec(input@));
        }
    }
}

pub struct DMetro {
    pub output: Vec<Sample>,
    pub last_trigger: Vec<u64>,
    pub fired: Vec<bool>,
    pub frame_number: u64,
    pub sample_rate: i64,
}

#[verifier::ext_equal]
pub struct DMetroView {
    pub output: Seq<Sample>,
    pub last_trigger: Seq<u64>,
    pub fired: Seq<bool>,
    pub frame_number: int,
    pub sample_rate: int,
}

impl View for DMetro {
    type V = DMetroView;

    open spec fn view(&self) -> DMetroView {
        DMetroView {
            output: self.output@,
            last_trigger: self.last_trigger@,
            fired: self.fired@,
            frame_number: self.frame_number as int,
            sample_rate: self.sample_rate as int,
        }
    }
}

impl DMetroView {
    pub open spec fn wf_spec(self) -> bool {
        &&& self.last_trigger.len() == self.output.len()
        &&& self.fired.len() == self.output.len()
        &&& 0 <= self.sample_rate <= u32::MAX
        &&& 0 <= self.frame_number <= u64::MAX
        &&& forall|c: int|
            0 <= c < self.last_trigger.len() ==> 0 <= #[trigger] self.last_trigger[c]
                <= self.frame_number
    }

    pub open spec fn out_spec(self) -> Seq<Sample> {
        self.output
    }

    pub open spec fn fires_at(self, input: Seq<Sample>, c: int) -> bool {
        metro_fires(
            self.fired[c],
            self.frame_number,
            self.last_trigger[c] as int,
            dmetro_period(self.sample_rate, input[c] as int),
        )
    }

    pub open spec fn step_spec(self, input: Seq<Sample>) -> DMetroView {
        DMetroView {
            output: Seq::new(
                self.output.len(),
                |c: int| if self.fires_at(input, c) {
                    SCALE
                } else {
                    0
                },
            ),
            last_trigger: Seq::new(
                self.output.len(),
                |c: int| if self.fires_at(input, c) {
                    self.frame_number as u64
                } else {
                    self.last_trigger[c]
                },
            ),
            fired: Seq::new(self.output.len(), |c: int| self.fired[c] || self.fires_at(input, c)),
            frame_number: next_frame(self.frame_number),
            ..self
        }
    }
}

impl DMetro {
    pub fn new(channels: u8, sample_rate: u32) -> (r: DMetro)
        ensures
            r@.wf_spec(),
            r@.out_spec() == Seq::new(channels as nat, |c: int| 0i64),
            r@.frame_number == 0,
            r@.sample_rate == sample_rate as int,
            r@.last_trigger == Seq::new(channels as nat, |c: int| 0u64),
            r@.fired == Seq::new(channels as nat, |c: int| false),
    {
        let r = DMetro {
            output: vec![0i64; channels as usize],
            last_trigger: vec![0u64; channels as usize],
            fired: vec![false; channels as usize],
            frame_number: 0,
            sample_rate: sample_rate as i64,
        };
        proof {
            assert(r@.out_spec() =~= Seq::new(channels as nat, |c: int| 0i64));
        }
        r
    }

    pub fn inputs(&self) -> (r: u8)
        ensures
            r == 1,
    {
        1
    }

    pub fn output(&self) -> (r: &Vec<Sample>)
        ensures
            r@ == self@.out_spec(),
    {
        &self.output
    }

    pub fn sample(&mut self, input: &[Sample])
        requires
            old(self)@.wf_spec(),
            input@.len() >= old(self)@.output.len(),
        ensures
            final(self)@ == old(self)@.step_spec(input@),
            final(self)@.wf_spec(),
    {
        let channels: usize = self.output.len();
        let avail: usize = input.len();
        let mut c: usize = 0;
        while c < channels
            invariant
                c <= channels,
                self.output@.len() == channels,
                self.last_trigger@.len() == channels,
                self.fired@.len() == channels,
                input@.len() >= channels,
                avail == input@.len(),
                self.frame_number == old(self).frame_number,
                self.sample_rate == old(self).sample_rate,
                0 <= self.sample_rate <= u32::MAX,
                forall|j: int|
                    c <= j < channels ==> self.output@[j] == old(self).output@[j]
                        && self.last_trigger@[j] == old(self).last_trigger@[j]
                        && self.fired@[j] == old(self).fired@[j],
                forall|j: int|
                    0 <= j < channels ==> 0 <= #[trigger] old(self).last_trigger@[j]
                        <= old(self).frame_number,
                forall|j: int|
                    0 <= j < c ==> {
                        &&& self.output@[j] == (if old(self)@.fires_at(input@, j) {
                            SCALE
                        } else {
                            0i64
                        })
                        &&& self.last_trigger@[j] == (if old(self)@.fires_at(input@, j) {
                            old(self).frame_number
                        } else {
                            old(self).last_trigger@[j]
                        })
                        &&& self.fired@[j] == (old(self).fired@[j] || old(self)@.fires_at(
                            input@,
                            j,
                        ))
                    },
            decreases channels - c,
        {
            let dt = input[c];
            let period = dmetro_period_exec(self.sample_rate, dt);
            let last = self.last_trigger[c];
            let was = self.fired[c];
            let fires = !was || self.frame_number - last >= period;
            if fires {
                self.output.set(c, SCALE);
                self.last_trigger.set(c, self.frame_number);
                self.fired.set(c, true);
            } else {
                self.output.set(c, 0);
            }
            c = c + 1;
        }
        if self.frame_number < u64::MAX {
            self.frame_number = self.frame_number + 1;
        }
        proof {
            assert(self@ =~= old(self)@.step_spec(input@));
        }
    }
}

pub struct MetroHold {
    pub output: Vec<Sample>,
    pub frequencies: Vec<Sample>,
    pub last_trigger: Vec<u64>,
    pub frame_number: u64,
    pub sample_rate: i64,
}

#[verifier::ext_equal]
pub struct MetroHoldView {
    pub output: Seq<Sample>,
    pub frequencies: Seq<Sample>,
    pub last_trigger: Seq<u64>,
    pub frame_number: int,
    pub sample_rate: int,
}

impl View for MetroHold {
    type V = MetroHoldView;

    open spec fn view(&self) -> MetroHoldView {
        MetroHoldView {
            output: self.output@,
            frequencies: self.frequencies@,
            last_trigger: self.last_trigger@,
            frame_number: self.frame_number as int,
            sample_rate: self.sample_rate as int,
        }
    }
}

impl MetroHoldView {
    pub open spec fn wf_spec(self) -> bool {
        &&& self.last_trigger.len() == self.output.len()
        &&& self.frequencies.len() == self.output.len()
        &&& 0 <= self.sample_rate <= u32::MAX
        &&& 0 <= self.frame_number <= u64::MAX
        &&& forall|c: int|
            0 <= c < self.last_trigger.len() ==> 0 <= #[trigger] self.last_trigger[c]
                <= self.frame_number
    }

    pub open spec fn out_spec(self) -> Seq<Sample> {
        self.output
    }

    /// The rate actually used this frame: the held one, or the incoming
    /// one where none is held yet.
    pub open spec fn held_at(self, input: Seq<Sample>, c: int) -> Sample {
        if self.frequencies[c] == 0 {
            input[c]
        } else {
            self.frequencies[c]
        }
    }

    pub open spec fn fires_at(self, input: Seq<Sample>, c: int) -> bool {
        self.frame_number - self.last_trigger[c] >= metro_period(
            self.sample_rate,
            self.held_at(input, c) as int,
        )
    }

    pub open spec fn step_spec(self, input: Seq<Sample>) -> MetroHoldView {
        MetroHoldView {
            output: Seq::new(
                self.output.len(),
                |c: int| if self.fires_at(input, c) {
                    SCALE
                } else {
                    0
                },
            ),
            frequencies: Seq::new(
                self.output.len(),
                |c: int| if self.fires_at(input, c) {
                    input[c]
                } else {
                    self.held_at(input, c)
                },
            ),
            last_trigger: Seq::new(
                self.output.len(),
                |c: int| if self.fires_at(input, c) {
                    self.frame_number as u64
                } else {
                    self.last_trigger[c]
                },
            ),
            frame_number: next_frame(self.frame_number),
            ..self
        }
    }
}

impl MetroHold {
    pub fn new(channels: u8, sample_rate: u32) -> (r: MetroHold)
        ensures
            r@.wf_spec(),
            r@.out_spec() == Seq::new(channels as nat, |c: int| 0i64),
            r@.frame_number == 0,
            r@.sample_rate == sample_rate as int,
            r@.last_trigger == Seq::new(channels as nat, |c: int| 0u64),
            r@.frequencies == Seq::new(channels as nat, |c: int| 0i64),
    {
        let r = MetroHold {
            output: vec![0i64; channels as usize],
            frequencies: vec![0i64; channels as usize],
            last_trigger: vec![0u64; channels as usize],
            frame_number: 0,
            sample_rate: sample_rate as i64,
        };
        proof {
            assert(r@.out_spec() =~= Seq::new(channels as nat, |c: int| 0i64));
        }
        r
    }

    pub fn inputs(&self) -> (r: u8)
        ensures
            r == 1,
    {
        1
    }

    pub fn output(&self) -> (r: &Vec<Sample>)
        ensures
            r@ == self@.out_spec(),
    {
        &self.output
    }

    pub fn sample(&mut self, input: &[Sample])
        requires
            old(self)@.wf_spec(),
            input@.len() >= old(self)@.output.len(),
        ensures
            final(self)@ == old(self)@.step_spec(input@),
            final(self)@.wf_spec(),
    {
        let channels: usize = self.output.len();
        let avail: usize = input.len();
        let mut c: usize = 0;
        while c < channels
            invariant
                c <= channels,
                self.output@.len() == channels,
                self.last_trigger@.len() == channels,
                self.frequencies@.len() == channels,
                input@.len() >= channels,
                avail == input@.len(),
                self.frame_number == old(self).frame_number,
                self.sample_rate == old(self).sample_rate,
                0 <= self.sample_rate <= u32::MAX,
                forall|j: int|
                    c <= j < channels ==> self.output@[j] == old(self).output@[j]
                        && self.last_trigger@[j] == old(self).last_trigger@[j]
                        && self.frequencies@[j] == old(self).frequencies@[j],
                forall|j: int|
                    0 <= j < channels ==> 0 <= #[trigger] old(self).last_trigger@[j]
                        <= old(self).frame_number,
                forall|j: int|
                    0 <= j < c ==> {
                        &&& self.output@[j] == (if old(self)@.fires_at(input@, j) {
                            SCALE
                        } else {
                            0i64
                        })
                        &&& self.last_trigger@[j] == (if old(self)@.fires_at(input@, j) {
                            old(self).frame_number
                        } else {
                            old(self).last_trigger@[j]
                        })
                        &&& self.frequencies@[j] == (if old(self)@.fires_at(input@, j) {
                            input@[j]
                        } else {
                            old(self)@.held_at(input@, j)
                        })
                    },
            decreases channels - c,
        {
            let f = input[c];
            let held0 = self.frequencies[c];
            let held = if held0 == 0 {
                f
            } else {
                held0
            };
            let period = metro_period_exec(self.sample_rate, held);
            let last = self.last_trigger[c];
            let fires = self.frame_number - last >= period;
            if fires {
                self.output.set(c, SCALE);
                self.last_trigger.set(c, self.frame_number);
                self.frequencies.set(c, f);
            } else {
                self.output.set(c, 0);
                self.frequencies.set(c, held);
            }
            c = c + 1;
        }
        if self.frame_number < u64::MAX {
            self.frame_number = self.frame_number + 1;
        }
        proof {
            assert(self@ =~= old(self)@.step_spec(input@));
        }
    }
}

pub struct DMetroHold {
    pub output: Vec<Sample>,
    pub dts: Vec<Sample>,
    pub last_trigger: Vec<u64>,
    pub frame_number: u64,
    pub sample_rate: i64,
}

#[verifier::ext_equal]
pub struct DMetroHoldView {
    pub output: Seq<Sample>,
    pub dts: Seq<Sample>,
    pub last_trigger: Seq<u64>,
    pub frame_number: int,
    pub sample_rate: int,
}

impl View for DMetroHold {
    type V = DMetroHoldView;

    open spec fn view(&self) -> DMetroHoldView {
        DMetroHoldView {
            output: self.output@,
            dts: self.dts@,
            last_trigger: self.last_trigger@,
            frame_number: self.frame_number as int,
            sample_rate: self.sample_rate as int,
        }
    }
}

impl DMetroHoldView {
    pub open spec fn wf_spec(self) -> bool {
        &&& self.last_trigger.len() == self.output.len()
        &&& self.dts.len() == self.output.len()
        &&& 0 <= self.sample_rate <= u32::MAX
        &&& 0 <= self.frame_number <= u64::MAX
        &&& forall|c: int|
            0 <= c < self.last_trigger.len() ==> 0 <= #[trigger] self.last_trigger[c]
                <= self.frame_number
    }

    pub open spec fn out_spec(self) -> Seq<Sample> {
        self.output
    }

    pub open spec fn held_at(self, input: Seq<Sample>, c: int) -> Sample {
        if self.dts[c] == 0 {
            input[c]
        } else {
            self.dts[c]
        }
    }

    pub open spec fn fires_at(self, input: Seq<Sample>, c: int) -> bool {
        self.frame_number - self.last_trigger[c] >= dmetro_period(
            self.sample_rate,
            self.held_at(input, c) as int,
        )
    }

    pub open spec fn step_spec(self, input: Seq<Sample>) -> DMetroHoldView {
        DMetroHoldView {
            output: Seq::new(
                self.output.len(),
                |c: int| if self.fires_at(input, c) {
                    SCALE
                } else {
                    0
                },
            ),
            dts: Seq::new(
                self.output.len(),
                |c: int| if self.fires_at(input, c) {
                    input[c]
                } else {
                    self.held_at(input, c)
                },
            ),
            last_trigger: Seq::new(
                self.output.len(),
                |c: int| if self.fires_at(input, c) {
                    self.frame_number as u64
                } else {
                    self.last_trigger[c]
                },
            ),
            frame_number: next_frame(self.frame_number),
            ..self
        }
    }
}

impl DMetroHold {
    pub fn new(channels: u8, sample_rate: u32) -> (r: DMetroHold)
        ensures
            r@.wf_spec(),
            r@.out_spec() == Seq::new(channels as nat, |c: int| 0i64),
            r@.frame_number == 0,
            r@.sample_rate == sample_rate as int,
            r@.last_trigger == Seq::new(channels as nat, |c: int| 0u64),
            r@.dts == Seq::new(channels as nat, |c: int| 0i64),
    {
        let r = DMetroHold {
            output: vec![0i64; channels as usize],
            dts: vec![0i64; channels as usize],
            last_trigger: vec![0u64; channels as usize],
            frame_number: 0,
            sample_rate: sample_rate as i64,
        };
        proof {
            assert(r@.out_spec() =~= Seq::new(channels as nat, |c: int| 0i64));
        }
        r
    }

    pub fn inputs(&self) -> (r: u8)
        ensures
            r == 1,
    {
        1
    }

    pub fn output(&self) -> (r: &Vec<Sample>)
        ensures
            r@ == self@.out_spec(),
    {
        &self.output
    }

    pub fn sample(&mut self, input: &[Sample])
        requires
            old(self)@.wf_spec(),
            input@.len() >= old(self)@.output.len(),
        ensures
            final(self)@ == old(self)@.step_spec(input@),
            final(self)@.wf_spec(),
    {
        let channels: usize = self.output.len();
        let avail: usize = input.len();
        let mut c: usize = 0;
        while c < channels
            invariant
                c <= channels,
                self.output@.len() == channels,
                self.last_trigger@.len() == channels,
                self.dts@.len() == channels,
                input@.len() >= channels,
                avail == input@.len(),
                self.frame_number == old(self).frame_number,
                self.sample_rate == old(self).sample_rate,
                0 <= self.sample_rate <= u32::MAX,
                forall|j: int|
                    c <= j < channels ==> self.output@[j] == old(self).output@[j]
                        && self.last_trigger@[j] == old(self).last_trigger@[j]
                        && self.dts@[j] == old(self).dts@[j],
                forall|j: int|
                    0 <= j < channels ==> 0 <= #[trigger] old(self).last_trigger@[j]
                        <= old(self).frame_number,
                forall|j: int|
                    0 <= j < c ==> {
                        &&& self.output@[j] == (if old(self)@.fires_at(input@, j) {
                            SCALE
                        } else {
                            0i64
                        })
                        &&& self.last_trigger@[j] == (if old(self)@.fires_at(input@, j) {
                            old(self).frame_number
                        } else {
                            old(self).last_trigger@[j]
                        })
                        &&& self.dts@[j] == (if old(self)@.fires_at(input@, j) {
                            input@[j]
                        } else {
                            old(self)@.held_at(input@, j)
                        })
                    },
            decreases channels - c,
        {
            let dt = input[c];
            let held0 = self.dts[c];
            let held = if held0 == 0 {
                dt
            } else {
                held0
            };
            let period = dmetro_period_exec(self.sample_rate, held);
            let last = self.last_trigger[c];
            let fires = self.frame_number - last >= period;
            if fires {
                self.output.set(c, SCALE);
                self.last_trigger.set(c, self.frame_number);
                self.dts.set(c, dt);
            } else {
                self.output.set(c, 0);
                self.dts.set(c, held);
            }
            c = c + 1;
        }
        if self.frame_number < u64::MAX {
            self.frame_number = self.frame_number + 1;
        }
        proof {
            assert(self@ =~= old(self)@.step_spec(input@));
        }
    }
}

} // verus!
