//! A realtime audio synthesis engine: a directed acyclic graph of
//! sample-rate signal processors, walked in topological order once per
//! audio frame, together with a reverse-Polish text front-end that
//! compiles a program into such a graph.
//!
//! Samples are signed 64-bit fixed-point numbers with 32 fractional
//! bits, so every arithmetic step has an exact, machine-checked
//! contract.

mod biquad;
mod constant;
mod convolution;
mod delay;
mod feedback;
mod filters;
mod function;
mod graph;
mod impulse;
mod input;
pub mod laws;
mod metro;
mod module;
mod noise;
mod osc;
mod pan;
mod parameter;
pub mod parse;
mod phasor;
mod pulse;
mod pure;
mod sample;
mod sample_and_hold;
pub mod stack;
mod transcend;
mod zip;

pub use biquad::{make_hpf_coefficients, make_lpf_coefficients, BiQuad, BiQuadKind};
pub use constant::Constant;
pub use convolution::{Convolution, ConvolutionM};
pub use delay::Delay;
pub use feedback::Feedback;
pub use filters::{HPF, LPF};
pub use function::{Fn1, Fn2, Fn3};
pub use graph::AudioGraph;
pub use impulse::Impulse;
pub use input::Input;
pub use metro::{DMetro, DMetroHold, Metro, MetroHold};
pub use module::ModuleKind;
pub use noise::WhiteNoise;
pub use osc::{Osc, OscPhase};
pub use pan::{Pan1, Pan2, Pan3};
pub use parameter::Parameter;
pub use phasor::{Phasor, Phasor0};
pub use pulse::Pulse;
pub use pure::{BinaryFn, TernaryFn, UnaryFn};
pub use sample_and_hold::SampleAndHold;
pub use zip::Zip;
pub use pan::sqrt_fx;
pub use pure::{
    apply1, apply2, apply3, cos_fx, midi2freq_fx, sine_fx, triangle_fx, HALF, QUARTER,
};
pub use sample::{fx_add, fx_div, fx_div_spec, fx_divi, fx_mul, fx_mul_spec, fx_sub, phase_frac_fx,
    sat, tdiv, wrap_add, Sample, SCALE};
pub use transcend::{exp2_fx, log2_fx, pow_fx};
