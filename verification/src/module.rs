//! The module contract: every DSP unit exposes a declared input count,
//! an output frame, and a one-frame `sample` step, here gathered into a
//! single tagged union so that the graph can own and dispatch modules
//! without indirection.
//!
//! The mathematical state of a module is its [`MView`]; `sample` is the
//! executable image of [`MView::step_spec`].

use crate::biquad::{BiQuad, BiQuadView};
use crate::constant::{Constant, ConstantView};
use crate::convolution::{Convolution, ConvolutionM, ConvolutionMView, ConvolutionView};
use crate::delay::{Delay, DelayView};
use crate::feedback::{Feedback, FeedbackView};
use crate::pan::{Pan1, Pan1View, Pan2, Pan2View, Pan3, Pan3View};
use crate::pulse::{Pulse, PulseView};
use crate::filters::{HPFView, LPFView, HPF, LPF};
use crate::function::{Fn1, Fn1View, Fn2, Fn2View, Fn3, Fn3View};
use crate::impulse::{Impulse, ImpulseView};
use crate::input::{Input, InputView};
use crate::metro::{
    DMetro, DMetroHold, DMetroHoldView, DMetroView, Metro, MetroHold, MetroHoldView, MetroView,
};
use crate::noise::{WhiteNoise, WhiteNoiseView};
use crate::osc::{Osc, OscPhase, OscPhaseView, OscView};
use crate::parameter::{Parameter, ParameterView};
use crate::phasor::{Phasor, Phasor0, Phasor0View, PhasorView};
use crate::sample::Sample;
use crate::sample_and_hold::{SampleAndHold, SampleAndHoldView};
use crate::zip::{Zip, ZipView};
use vstd::prelude::*;

verus! {

/// Any module of the library.
pub enum ModuleKind {
    Constant(Constant),
    Input(Input),
    Phasor(Phasor),
    Phasor0(Phasor0),
    Fn1(Fn1),
    Fn2(Fn2),
    Fn3(Fn3),
    WhiteNoise(WhiteNoise),
    Parameter(Parameter),
    Zip(Zip),
    SampleAndHold(SampleAndHold),
    LPF(LPF),
    HPF(HPF),
    Metro(Metro),
    DMetro(DMetro),
    MetroHold(MetroHold),
    DMetroHold(DMetroHold),
    Impulse(Impulse),
    Osc(Osc),
    OscPhase(OscPhase),
    BiQuad(BiQuad),
    Delay(Delay),
    Feedback(Feedback),
    Convolution(Convolution),
    ConvolutionM(ConvolutionM),
    Pulse(Pulse),
    Pan1(Pan1),
    Pan2(Pan2),
    Pan3(Pan3),
}

/// The mathematical state of any module.
#[verifier::ext_equal]
pub enum MView {
    Constant(ConstantView),
    Input(InputView),
    Phasor(PhasorView),
    Phasor0(Phasor0View),
    Fn1(Fn1View),
    Fn2(Fn2View),
    Fn3(Fn3View),
    WhiteNoise(WhiteNoiseView),
    Parameter(ParameterView),
    Zip(ZipView),
    SampleAndHold(SampleAndHoldView),
    LPF(LPFView),
    HPF(HPFView),
    Metro(MetroView),
    DMetro(DMetroView),
    MetroHold(MetroHoldView),
    DMetroHold(DMetroHoldView),
    Impulse(ImpulseView),
    Osc(OscView),
    OscPhase(OscPhaseView),
    BiQuad(BiQuadView),
    Delay(DelayView),
    Feedback(FeedbackView),
    Convolution(ConvolutionView),
    ConvolutionM(ConvolutionMView),
    Pulse(PulseView),
    Pan1(Pan1View),
    Pan2(Pan2View),
    Pan3(Pan3View),
}

impl View for ModuleKind {
    type V = MView;

    open spec fn view(&self) -> MView {
        match self {
            ModuleKind::Constant(m) => MView::Constant(m@),
            ModuleKind::Input(m) => MView::Input(m@),
            ModuleKind::Phasor(m) => MView::Phasor(m@),
            ModuleKind::Phasor0(m) => MView::Phasor0(m@),
            ModuleKind::Fn1(m) => MView::Fn1(m@),
            ModuleKind::Fn2(m) => MView::Fn2(m@),
            ModuleKind::Fn3(m) => MView::Fn3(m@),
            ModuleKind::WhiteNoise(m) => MView::WhiteNoise(m@),
            ModuleKind::Parameter(m) => MView::Parameter(m@),
            ModuleKind::Zip(m) => MView::Zip(m@),
            ModuleKind::SampleAndHold(m) => MView::SampleAndHold(m@),
            ModuleKind::LPF(m) => MView::LPF(m@),
            ModuleKind::HPF(m) => MView::HPF(m@),
            ModuleKind::Metro(m) => MView::Metro(m@),
            ModuleKind::DMetro(m) => MView::DMetro(m@),
            ModuleKind::MetroHold(m) => MView::MetroHold(m@),
            ModuleKind::DMetroHold(m) => MView::DMetroHold(m@),
            ModuleKind::Impulse(m) => MView::Impulse(m@),
            ModuleKind::Osc(m) => MView::Osc(m@),
            ModuleKind::OscPhase(m) => MView::OscPhase(m@),
            ModuleKind::BiQuad(m) => MView::BiQuad(m@),
            ModuleKind::Delay(m) => MView::Delay(m@),
            ModuleKind::Feedback(m) => MView::Feedback(m@),
            ModuleKind::Convolution(m) => MView::Convolution(m@),
            ModuleKind::ConvolutionM(m) => MView::ConvolutionM(m@),
            ModuleKind::Pulse(m) => MView::Pulse(m@),
            ModuleKind::Pan1(m) => MView::Pan1(m@),
            ModuleKind::Pan2(m) => MView::Pan2(m@),
            ModuleKind::Pan3(m) => MView::Pan3(m@),
        }
    }
}

impl MView {
    /// Number of upstream sources the module expects.
    pub open spec fn inputs_spec(self) -> nat {
        match self {
            MView::Constant(m) => 0,
            MView::Input(m) => 0,
            MView::Phasor(m) => 1,
            MView::Phasor0(m) => 2,
            MView::Fn1(m) => 1,
            MView::Fn2(m) => 2,
            MView::Fn3(m) => 3,
            MView::WhiteNoise(m) => 0,
            MView::Parameter(m) => 0,
            MView::Zip(m) => m.channels as nat,
            MView::SampleAndHold(m) => 2,
            MView::LPF(m) => 2,
            MView::HPF(m) => 2,
            MView::Metro(m) => 1,
            MView::DMetro(m) => 1,
            MView::MetroHold(m) => 1,
            MView::DMetroHold(m) => 1,
            MView::Impulse(m) => 2,
            MView::Osc(m) => 1,
            MView::OscPhase(m) => 2,
            MView::BiQuad(m) => 3,
            MView::Delay(m) => 2,
            MView::Feedback(m) => 3,
            MView::Convolution(m) => 2,
            MView::ConvolutionM(m) => (1 + crate::convolution::clamped_taps(m.window_size)) as nat,
            MView::Pulse(m) => 2,
            MView::Pan1(m) => 2,
            MView::Pan2(m) => 3,
            MView::Pan3(m) => 3,
        }
    }

    /// The module's current output frame.
    pub open spec fn out_spec(self) -> Seq<Sample> {
        match self {
            MView::Constant(m) => m.out_spec(),
            MView::Input(m) => m.out_spec(),
            MView::Phasor(m) => m.out_spec(),
            MView::Phasor0(m) => m.out_spec(),
            MView::Fn1(m) => m.out_spec(),
            MView::Fn2(m) => m.out_spec(),
            MView::Fn3(m) => m.out_spec(),
            MView::WhiteNoise(m) => m.out_spec(),
            MView::Parameter(m) => m.out_spec(),
            MView::Zip(m) => m.out_spec(),
            MView::SampleAndHold(m) => m.out_spec(),
            MView::LPF(m) => m.out_spec(),
            MView::HPF(m) => m.out_spec(),
            MView::Metro(m) => m.out_spec(),
            MView::DMetro(m) => m.out_spec(),
            MView::MetroHold(m) => m.out_spec(),
            MView::DMetroHold(m) => m.out_spec(),
            MView::Impulse(m) => m.out_spec(),
            MView::Osc(m) => m.out_spec(),
            MView::OscPhase(m) => m.out_spec(),
            MView::BiQuad(m) => m.out_spec(),
            MView::Delay(m) => m.out_spec(),
            MView::Feedback(m) => m.out_spec(),
            MView::Convolution(m) => m.out_spec(),
            MView::ConvolutionM(m) => m.out_spec(),
            MView::Pulse(m) => m.out_spec(),
            MView::Pan1(m) => m.out_spec(),
            MView::Pan2(m) => m.out_spec(),
            MView::Pan3(m) => m.out_spec(),
        }
    }

    /// Channel count: the length of the output frame.
    pub open spec fn channels_spec(self) -> nat {
        self.out_spec().len()
    }

    /// Internal consistency: parallel state arrays match the output
    /// frame's length, counters have not outrun the frame clock, and
    /// sample rates are genuine `u32` rates.
    pub open spec fn wf_spec(self) -> bool {
        match self {
            MView::Constant(m) => m.wf_spec(),
            MView::Input(m) => true,
            MView::Phasor(m) => true,
            MView::Phasor0(m) => true,
            MView::Fn1(m) => true,
            MView::Fn2(m) => true,
            MView::Fn3(m) => true,
            MView::WhiteNoise(m) => true,
            MView::Parameter(m) => true,
            MView::Zip(m) => m.wf_spec(),
            MView::SampleAndHold(m) => true,
            MView::LPF(m) => true,
            MView::HPF(m) => m.wf_spec(),
            MView::Metro(m) => m.wf_spec(),
            MView::DMetro(m) => m.wf_spec(),
            MView::MetroHold(m) => m.wf_spec(),
            MView::DMetroHold(m) => m.wf_spec(),
            MView::Impulse(m) => m.wf_spec(),
            MView::Osc(m) => m.wf_spec(),
            MView::OscPhase(m) => m.wf_spec(),
            MView::BiQuad(m) => m.wf_spec(),
            MView::Delay(m) => m.wf_spec(),
            MView::Feedback(m) => m.wf_spec(),
            MView::Convolution(m) => m.wf_spec(),
            MView::ConvolutionM(m) => m.wf_spec(),
            MView::Pulse(m) => m.wf_spec(),
            MView::Pan1(m) => true,
            MView::Pan2(m) => true,
            MView::Pan3(m) => true,
        }
    }

    /// One audio frame of the module, as a mathematical function of its
    /// packed input buffer (or of the external frame, for sources).
    pub open spec fn step_spec(self, input: Seq<Sample>) -> MView {
        match self {
            MView::Constant(m) => MView::Constant(m.step_spec(input)),
            MView::Input(m) => MView::Input(m.step_spec(input)),
            MView::Phasor(m) => MView::Phasor(m.step_spec(input)),
            MView::Phasor0(m) => MView::Phasor0(m.step_spec(input)),
            MView::Fn1(m) => MView::Fn1(m.step_spec(input)),
            MView::Fn2(m) => MView::Fn2(m.step_spec(input)),
            MView::Fn3(m) => MView::Fn3(m.step_spec(input)),
            MView::WhiteNoise(m) => MView::WhiteNoise(m.step_spec(input)),
            MView::Parameter(m) => MView::Parameter(m.step_spec(input)),
            MView::Zip(m) => MView::Zip(m.step_spec(input)),
            MView::SampleAndHold(m) => MView::SampleAndHold(m.step_spec(input)),
            MView::LPF(m) => MView::LPF(m.step_spec(input)),
            MView::HPF(m) => MView::HPF(m.step_spec(input)),
            MView::Metro(m) => MView::Metro(m.step_spec(input)),
            MView::DMetro(m) => MView::DMetro(m.step_spec(input)),
            MView::MetroHold(m) => MView::MetroHold(m.step_spec(input)),
            MView::DMetroHold(m) => MView::DMetroHold(m.step_spec(input)),
            MView::Impulse(m) => MView::Impulse(m.step_spec(input)),
            MView::Osc(m) => MView::Osc(m.step_spec(input)),
            MView::OscPhase(m) => MView::OscPhase(m.step_spec(input)),
            MView::BiQuad(m) => MView::BiQuad(m.step_spec(input)),
            MView::Delay(m) => MView::Delay(m.step_spec(input)),
            MView::Feedback(m) => MView::Feedback(m.step_spec(input)),
            MView::Convolution(m) => MView::Convolution(m.step_spec(input)),
            MView::ConvolutionM(m) => MView::ConvolutionM(m.step_spec(input)),
            MView::Pulse(m) => MView::Pulse(m.step_spec(input)),
            MView::Pan1(m) => MView::Pan1(m.step_spec(input)),
            MView::Pan2(m) => MView::Pan2(m.step_spec(input)),
            MView::Pan3(m) => MView::Pan3(m.step_spec(input)),
        }
    }

    /// A step never changes a module's arity, channel count, or
    /// well-formedness.
    pub proof fn lemma_step_stable(self, input: Seq<Sample>)
        requires
            self.wf_spec(),
        ensures
            self.step_spec(input).wf_spec(),
            self.step_spec(input).inputs_spec() == self.inputs_spec(),
            self.step_spec(input).channels_spec() == self.channels_spec(),
    {
    }
}

impl ModuleKind {
    pub fn inputs(&self) -> (r: u8)
        ensures
            r as nat == self@.inputs_spec(),
    {
        match self {
            ModuleKind::Constant(m) => m.inputs(),
            ModuleKind::Input(m) => m.inputs(),
            ModuleKind::Phasor(m) => m.inputs(),
            ModuleKind::Phasor0(m) => m.inputs(),
            ModuleKind::Fn1(m) => m.inputs(),
            ModuleKind::Fn2(m) => m.inputs(),
            ModuleKind::Fn3(m) => m.inputs(),
            ModuleKind::WhiteNoise(m) => m.inputs(),
            ModuleKind::Parameter(m) => m.inputs(),
            ModuleKind::Zip(m) => m.inputs(),
            ModuleKind::SampleAndHold(m) => m.inputs(),
            ModuleKind::LPF(m) => m.inputs(),
            ModuleKind::HPF(m) => m.inputs(),
            ModuleKind::Metro(m) => m.inputs(),
            ModuleKind::DMetro(m) => m.inputs(),
            ModuleKind::MetroHold(m) => m.inputs(),
            ModuleKind::DMetroHold(m) => m.inputs(),
            ModuleKind::Impulse(m) => m.inputs(),
            ModuleKind::Osc(m) => m.inputs(),
            ModuleKind::OscPhase(m) => m.inputs(),
            ModuleKind::BiQuad(m) => m.inputs(),
            ModuleKind::Delay(m) => m.inputs(),
            ModuleKind::Feedback(m) => m.inputs(),
            ModuleKind::Convolution(m) => m.inputs(),
            ModuleKind::ConvolutionM(m) => m.inputs(),
            ModuleKind::Pulse(m) => m.inputs(),
            ModuleKind::Pan1(m) => m.inputs(),
            ModuleKind::Pan2(m) => m.inputs(),
            ModuleKind::Pan3(m) => m.inputs(),
        }
    }

    pub fn output(&self) -> (r: &Vec<Sample>)
        ensures
            r@ == self@.out_spec(),
    {
        match self {
            ModuleKind::Constant(m) => m.output(),
            ModuleKind::Input(m) => m.output(),
            ModuleKind::Phasor(m) => m.output(),
            ModuleKind::Phasor0(m) => m.output(),
            ModuleKind::Fn1(m) => m.output(),
            ModuleKind::Fn2(m) => m.output(),
            ModuleKind::Fn3(m) => m.output(),
            ModuleKind::WhiteNoise(m) => m.output(),
            ModuleKind::Parameter(m) => m.output(),
            ModuleKind::Zip(m) => m.output(),
            ModuleKind::SampleAndHold(m) => m.output(),
            ModuleKind::LPF(m) => m.output(),
            ModuleKind::HPF(m) => m.output(),
            ModuleKind::Metro(m) => m.output(),
            ModuleKind::DMetro(m) => m.output(),
            ModuleKind::MetroHold(m) => m.output(),
            ModuleKind::DMetroHold(m) => m.output(),
            ModuleKind::Impulse(m) => m.output(),
            ModuleKind::Osc(m) => m.output(),
            ModuleKind::OscPhase(m) => m.output(),
            ModuleKind::BiQuad(m) => m.output(),
            ModuleKind::Delay(m) => m.output(),
            ModuleKind::Feedback(m) => m.output(),
            ModuleKind::Convolution(m) => m.output(),
            ModuleKind::ConvolutionM(m) => m.output(),
            ModuleKind::Pulse(m) => m.output(),
            ModuleKind::Pan1(m) => m.output(),
            ModuleKind::Pan2(m) => m.output(),
            ModuleKind::Pan3(m) => m.output(),
        }
    }

    /// Advance the module one frame.  `input` is the packed input
    /// buffer laid out as in [`crate::graph`], or the external frame
    /// for a module with no inputs.
    pub fn sample(self, input: &[Sample]) -> (r: ModuleKind)
        requires
            self@.wf_spec(),
            input@.len() >= self@.inputs_spec() * self@.channels_spec(),
        ensures
            r@ == self@.step_spec(input@),
    {
        match self {
            ModuleKind::Constant(mut m) => {
                m.sample(input);
                ModuleKind::Constant(m)
            },
            ModuleKind::Input(mut m) => {
                m.sample(input);
                ModuleKind::Input(m)
            },
            ModuleKind::Phasor(mut m) => {
                m.sample(input);
                ModuleKind::Phasor(m)
            },
            ModuleKind::Phasor0(mut m) => {
                m.sample(input);
                ModuleKind::Phasor0(m)
            },
            ModuleKind::Fn1(mut m) => {
                m.sample(input);
                ModuleKind::Fn1(m)
            },
            ModuleKind::Fn2(mut m) => {
                m.sample(input);
                ModuleKind::Fn2(m)
            },
            ModuleKind::Fn3(mut m) => {
                m.sample(input);
                ModuleKind::Fn3(m)
            },
            ModuleKind::WhiteNoise(mut m) => {
                m.sample(input);
                ModuleKind::WhiteNoise(m)
            },
            ModuleKind::Parameter(mut m) => {
                m.sample(input);
                ModuleKind::Parameter(m)
            },
            ModuleKind::Zip(mut m) => {
                m.sample(input);
                ModuleKind::Zip(m)
            },
            ModuleKind::SampleAndHold(mut m) => {
                m.sample(input);
                ModuleKind::SampleAndHold(m)
            },
            ModuleKind::LPF(mut m) => {
                m.sample(input);
                ModuleKind::LPF(m)
            },
            ModuleKind::HPF(mut m) => {
                m.sample(input);
                ModuleKind::HPF(m)
            },
            ModuleKind::Metro(mut m) => {
                m.sample(input);
                ModuleKind::Metro(m)
            },
            ModuleKind::DMetro(mut m) => {
                m.sample(input);
                ModuleKind::DMetro(m)
            },
            ModuleKind::MetroHold(mut m) => {
                m.sample(input);
                ModuleKind::MetroHold(m)
            },
            ModuleKind::DMetroHold(mut m) => {
                m.sample(input);
                ModuleKind::DMetroHold(m)
            },
            ModuleKind::Impulse(mut m) => {
                m.sample(input);
                ModuleKind::Impulse(m)
            },
            ModuleKind::Osc(mut m) => {
                m.sample(input);
                ModuleKind::Osc(m)
            },
            ModuleKind::OscPhase(mut m) => {
                m.sample(input);
                ModuleKind::OscPhase(m)
            },
            ModuleKind::BiQuad(mut m) => {
                m.sample(input);
                ModuleKind::BiQuad(m)
            },
            ModuleKind::Delay(mut m) => {
                m.sample(input);
                ModuleKind::Delay(m)
            },
            ModuleKind::Feedback(mut m) => {
                m.sample(input);
                ModuleKind::Feedback(m)
            },
            ModuleKind::Convolution(mut m) => {
                m.sample(input);
                ModuleKind::Convolution(m)
            },
            ModuleKind::ConvolutionM(mut m) => {
                m.sample(input);
                ModuleKind::ConvolutionM(m)
            },
            ModuleKind::Pulse(mut m) => {
                m.sample(input);
                ModuleKind::Pulse(m)
            },
            ModuleKind::Pan1(mut m) => {
                m.sample(input);
                ModuleKind::Pan1(m)
            },
            ModuleKind::Pan2(mut m) => {
                m.sample(input);
                ModuleKind::Pan2(m)
            },
            ModuleKind::Pan3(mut m) => {
                m.sample(input);
                ModuleKind::Pan3(m)
            },
        }
    }
}

} // verus!
