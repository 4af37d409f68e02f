//! The library's stated laws: properties that relate several functions,
//! proved once and for all inputs.

use crate::constant::ConstantView;
use crate::delay::{delay_read, ring_pushed};
use crate::filters::lpf_next;
use crate::graph::{acyclic, complete_order, pack_spec, respects_at, srcs_view, AudioGraph};
use crate::module::MView;
use crate::phasor::phasor_next;
use crate::pure::{cos_spec, rectangle_spec, sine_spec, triangle_spec};
use crate::sample::{fx_mul_spec, sat, tdiv, Sample, SCALE};
use crate::sample_and_hold::hold_next;
use crate::stack::{build_spec, OpView};
use vstd::arithmetic::div_mod::{
    lemma_fundamental_div_mod_converse, lemma_mod_multiples_vanish,
};
use vstd::math::abs;
use vstd::prelude::*;

verus! {

/// Multiplying by one in fixed point is exact.
pub proof fn lemma_fx_mul_one(a: int)
    requires
        i64::MIN <= a <= i64::MAX,
    ensures
        fx_mul_spec(SCALE as int, a) == a,
        fx_mul_spec(a, SCALE as int) == a,
{
    assert(abs(SCALE as int * a) == SCALE * abs(a)) by (nonlinear_arith);
    assert(abs(a * (SCALE as int)) == abs(a) * SCALE) by (nonlinear_arith);
    assert((SCALE * abs(a)) / (SCALE as int) == abs(a)) by {
        vstd::arithmetic::div_mod::lemma_div_multiples_vanish(abs(a) as int, SCALE as int);
    }
    assert((abs(a) * SCALE) / (SCALE as int) == abs(a)) by {
        assert(abs(a) * SCALE == SCALE * abs(a)) by (nonlinear_arith);
        vstd::arithmetic::div_mod::lemma_div_multiples_vanish(abs(a) as int, SCALE as int);
    }
}

/// Multiplying by zero in fixed point is exactly zero.
pub proof fn lemma_fx_mul_zero(a: int)
    ensures
        fx_mul_spec(0, a) == 0,
        fx_mul_spec(a, 0) == 0,
{
    assert(0 * a == 0) by (nonlinear_arith);
    assert(a * 0 == 0) by (nonlinear_arith);
}

/// A module run over a whole sequence of input frames, oldest first.
pub open spec fn run_module(m: MView, ins: Seq<Seq<Sample>>) -> MView
    decreases ins.len(),
{
    if ins.len() == 0 {
        m
    } else {
        run_module(m, ins.drop_last()).step_spec(ins.last())
    }
}

/// A Constant produces its construction value on every channel, on
/// every frame, forever: no input sequence ever changes it.
pub proof fn law_constant_forever(v: ConstantView, ins: Seq<Seq<Sample>>)
    ensures
        run_module(MView::Constant(v), ins) == MView::Constant(v),
        run_module(MView::Constant(v), ins).out_spec() == v.values,
    decreases ins.len(),
{
    if ins.len() > 0 {
        law_constant_forever(v, ins.drop_last());
    }
}

/// A phasor fed exactly the sample rate advances one whole waveform
/// period per frame: its position within the period never changes.
pub proof fn law_phasor_full_rate(phi: int, rate: int)
    requires
        -SCALE <= phi < SCALE,
        0 < rate <= u32::MAX,
    ensures
        crate::sample::phase_frac(phasor_next(phi, rate * SCALE, rate)) == crate::sample::phase_frac(
            phi,
        ),
{
    assert(tdiv(rate * SCALE, rate) == SCALE) by {
        assert(abs(rate * SCALE) == rate * SCALE) by (nonlinear_arith)
            requires
                rate > 0,
                SCALE > 0,
        ;
        assert((rate * SCALE) / rate == SCALE) by {
            assert(rate * SCALE == SCALE * rate) by (nonlinear_arith);
            vstd::arithmetic::div_mod::lemma_div_multiples_vanish(SCALE as int, rate);
        }
    }
    let big = 2 * SCALE as int;
    let r2 = (phi + SCALE + SCALE) % big;
    assert(r2 == phi % big) by {
        lemma_mod_multiples_vanish(1, phi, big);
    }
    let nx = phasor_next(phi, rate * SCALE, rate);
    assert(nx == r2 - SCALE);
    assert((r2 - SCALE) % (SCALE as int) == r2 % (SCALE as int)) by {
        vstd::arithmetic::div_mod::lemma_mod_sub_multiples_vanish(r2, SCALE as int);
        lemma_mod_multiples_vanish(-1, r2, SCALE as int);
    }
    assert((phi % big) % (SCALE as int) == phi % (SCALE as int)) by {
        assert(big == (SCALE as int) * 2);
        vstd::arithmetic::div_mod::lemma_mod_mod(phi, SCALE as int, 2);
    }
}

/// A phasor fed frequency zero holds its phase.
pub proof fn law_phasor_zero_freq(phi: int, rate: int)
    requires
        -SCALE <= phi < SCALE,
        0 <= rate,
    ensures
        phasor_next(phi, 0, rate) == phi,
{
    if rate != 0 {
        assert(tdiv(0, rate) == 0) by {
            vstd::arithmetic::div_mod::lemma_div_basics(abs(rate) as int);
            assert(abs(0int) == 0);
        }
    }
    assert((phi + SCALE) % (2 * SCALE as int) == phi + SCALE) by {
        vstd::arithmetic::div_mod::lemma_small_mod(
            (phi + SCALE) as nat,
            (2 * SCALE) as nat,
        );
    }
}

/// A graph's fresh order covers every node exactly when some complete
/// linearization exists: the cached order is empty iff the graph has a
/// cycle (or no nodes at all).
pub proof fn law_order_empty_iff_cycle(g: AudioGraph)
    requires
        g.order_fresh(),
    ensures
        (g.order@.len() == g.nodes@.len()) <==> acyclic(
            srcs_view(g.sources@),
            g.nodes@.len(),
        ),
{
    if g.order@.len() == g.nodes@.len() {
        assert(complete_order(srcs_view(g.sources@), g.order@, g.nodes@.len()));
    }
}

/// A linear combination of two input sequences, frame by frame.
pub open spec fn mix(a: int, xs: Seq<int>, b: int, ys: Seq<int>) -> Seq<int> {
    Seq::new(xs.len(), |i: int| a * xs[i] + b * ys[i])
}

/// The ideal one-pole low-pass state after the inputs `xs`, tracked
/// without rounding: with the coefficient `kn / kd` held fixed, the
/// filter state is `lpf_accum(kn, kd, xs) / kd^len` starting from zero.
/// `lpf_next` computes one step of this recurrence, `y + a * (x - y)`,
/// rounded into the fixed-point sample grid.
pub open spec fn lpf_accum(kn: int, kd: int, xs: Seq<int>) -> int
    decreases xs.len(),
{
    if xs.len() == 0 {
        0
    } else {
        (kd - kn) * lpf_accum(kn, kd, xs.drop_last()) + kn * vstd::arithmetic::power::pow(
            kd,
            (xs.len() - 1) as nat,
        ) * xs.last()
    }
}

/// The ideal low-pass filter is linear from zero state: driving it with
/// `a * xs + b * ys` gives `a` times its response to `xs` plus `b`
/// times its response to `ys`, exactly.  (The executable filter follows
/// this recurrence up to fixed-point rounding, so the spec's "within
/// floating tolerance" holds of it with the rounding as the tolerance.)
pub proof fn law_lpf_linear(kn: int, kd: int, a: int, b: int, xs: Seq<int>, ys: Seq<int>)
    requires
        xs.len() == ys.len(),
    ensures
        lpf_accum(kn, kd, mix(a, xs, b, ys)) == a * lpf_accum(kn, kd, xs) + b * lpf_accum(
            kn,
            kd,
            ys,
        ),
    decreases xs.len(),
{
    if xs.len() == 0 {
    } else {
        assert(mix(a, xs, b, ys).drop_last() =~= mix(a, xs.drop_last(), b, ys.drop_last()));
        law_lpf_linear(kn, kd, a, b, xs.drop_last(), ys.drop_last());
        let p = vstd::arithmetic::power::pow(kd, (xs.len() - 1) as nat);
        let mx = lpf_accum(kn, kd, mix(a, xs.drop_last(), b, ys.drop_last()));
        let lx = lpf_accum(kn, kd, xs.drop_last());
        let ly = lpf_accum(kn, kd, ys.drop_last());
        let xl = xs.last();
        let yl = ys.last();
        assert(mix(a, xs, b, ys).last() == a * xl + b * yl);
        assert((kd - kn) * mx == a * ((kd - kn) * lx) + b * ((kd - kn) * ly))
            by (nonlinear_arith)
            requires
                mx == a * lx + b * ly,
        ;
        assert(kn * p * (a * xl + b * yl) == a * (kn * p * xl) + b * (kn * p * yl))
            by (nonlinear_arith)
        ;
        assert(a * ((kd - kn) * lx) + a * (kn * p * xl) == a * ((kd - kn) * lx + kn * p * xl))
            by (nonlinear_arith)
        ;
        assert(b * ((kd - kn) * ly) + b * (kn * p * yl) == b * ((kd - kn) * ly + kn * p * yl))
            by (nonlinear_arith)
        ;
    }
}

/// Every waveshaper repeats after exactly one unit of phase, so an
/// oscillator's output is periodic with the phasor's period.
pub proof fn law_waveforms_periodic(x: int, width: int)
    ensures
        sine_spec(x + SCALE) == sine_spec(x),
        cos_spec(x + SCALE) == cos_spec(x),
        triangle_spec(x + SCALE) == triangle_spec(x),
        rectangle_spec(x + SCALE, width) == rectangle_spec(x, width),
{
    assert((x + SCALE) % (SCALE as int) == x % (SCALE as int)) by {
        vstd::arithmetic::div_mod::lemma_mod_add_multiples_vanish(x, SCALE as int);
    }
}

/// The zero-state, zero-input low-pass filter emits exactly zero: the
/// additive-identity case of linearity, which fixed-point rounding
/// preserves exactly.
pub proof fn law_lpf_zero(f: int, sap: int)
    ensures
        lpf_next(0, 0, f, sap) == 0,
{
    let k = fx_mul_spec(f, sap);
    lemma_fx_mul_zero(sat(k + SCALE));
    let a = crate::sample::fx_div_spec(k, sat(k + SCALE));
    lemma_fx_mul_zero(a);
}

/// A sample-and-hold with trigger one passes the input through exactly.
pub proof fn law_hold_pass(y: int, x: int)
    requires
        i64::MIN <= y <= i64::MAX,
        i64::MIN <= x <= i64::MAX,
    ensures
        hold_next(y, SCALE as int, x) == x,
{
    lemma_fx_mul_zero(y);
    lemma_fx_mul_one(x);
}

/// A sample-and-hold with trigger zero keeps its previous output.
pub proof fn law_hold_freeze(y: int, x: int)
    requires
        i64::MIN <= y <= i64::MAX,
        i64::MIN <= x <= i64::MAX,
    ensures
        hold_next(y, 0, x) == y,
{
    lemma_fx_mul_one(y);
    lemma_fx_mul_zero(x);
}

/// Reading a delay line at time zero returns the newest entry: the
/// sample pushed one frame earlier.  A `Delay` at `t = 0` is the
/// one-frame shift.
pub proof fn law_delay_zero_reads_newest(ring: Seq<Sample>)
    requires
        ring.len() >= 1,
    ensures
        delay_read(ring, 0) == ring[0],
{
    assert(0int % (SCALE as int) == 0) by {
        vstd::arithmetic::div_mod::lemma_small_mod(0, SCALE as nat);
    }
    assert(0int % (ring.len() as int) == 0) by {
        vstd::arithmetic::div_mod::lemma_small_mod(0, ring.len());
    }
    lemma_fx_mul_one(ring[0] as int);
    lemma_fx_mul_zero(ring[1int % (ring.len() as int)] as int);
}

/// Reading a delay line at a whole number of frames reproduces the
/// stored sample exactly: no interpolation error.
pub proof fn law_delay_integer_exact(ring: Seq<Sample>, d: int)
    requires
        ring.len() >= 1,
        0 <= d,
        d * SCALE <= i64::MAX,
    ensures
        delay_read(ring, d * SCALE) == ring[d % ring.len() as int],
{
    assert((d * SCALE) / (SCALE as int) == d && (d * SCALE) % (SCALE as int) == 0) by {
        assert(d * SCALE == SCALE * d) by (nonlinear_arith);
        vstd::arithmetic::div_mod::lemma_div_multiples_vanish(d, SCALE as int);
        vstd::arithmetic::div_mod::lemma_mod_multiples_basic(d, SCALE as int);
    }
    lemma_fx_mul_one(ring[d % ring.len() as int] as int);
    lemma_fx_mul_zero(ring[(d + 1) % (ring.len() as int)] as int);
}

/// One frame after a sample is pushed, a zero-time delay emits it.
pub proof fn law_delay_one_frame(ring: Seq<Sample>, x: Sample)
    requires
        ring.len() >= 1,
    ensures
        delay_read(ring_pushed(ring, x), 0) == x,
{
    law_delay_zero_reads_newest(ring_pushed(ring, x));
}

/// The compiler is order-preserving: two zero-input modules compile to
/// two independent leaves, handles on the stack in program order.
pub proof fn law_compiler_leaves(a0: MView, a1: MView)
    requires
        a0.inputs_spec() == 0,
        a1.inputs_spec() == 0,
    ensures
        build_spec(seq![OpView::Connect(a0), OpView::Connect(a1)], 2) matches Ok(st)
            && st.nodes == seq![a0, a1] && st.srcs == seq![
            Seq::<usize>::empty(),
            Seq::<usize>::empty(),
        ] && st.stack == seq![0usize, 1usize],
{
    let ops = seq![OpView::Connect(a0), OpView::Connect(a1)];
    reveal_with_fuel(build_spec, 3);
    assert(ops[0] == OpView::Connect(a0));
    assert(ops[1] == OpView::Connect(a1));
    let st0 = build_spec(ops, 0)->Ok_0;
    assert(st0.stack.len() == 0);
    assert(build_spec(ops, 1) == crate::stack::build_op(st0, ops[0], 0));
    let st1 = build_spec(ops, 1)->Ok_0;
    assert(st1.stack =~= st0.stack.take(0).push(0usize));
    assert(st1.nodes =~= seq![a0]);
    assert(st1.srcs =~~= seq![Seq::<usize>::empty()]);
    assert(st1.stack =~= seq![0usize]);
    assert(build_spec(ops, 2) == crate::stack::build_op(st1, ops[1], 1));
    let st2 = build_spec(ops, 2)->Ok_0;
    assert(st2.stack =~= st1.stack.take(1).push(1usize));
    assert(st1.stack.take(1) =~= seq![0usize]);
    assert(st2.nodes =~= seq![a0, a1]);
    assert(st2.srcs =~~= seq![Seq::<usize>::empty(), Seq::<usize>::empty()]);
    assert(st2.stack =~= seq![0usize, 1usize]);
}

/// The compiler wires a source to a sink: a zero-input module followed
/// by a one-input module leaves the sink fed by exactly the source.
pub proof fn law_compiler_connects(src: MView, snk: MView)
    requires
        src.inputs_spec() == 0,
        snk.inputs_spec() == 1,
    ensures
        build_spec(seq![OpView::Connect(src), OpView::Connect(snk)], 2) matches Ok(st)
            && st.nodes == seq![src, snk] && st.srcs == seq![Seq::<usize>::empty(), seq![0usize]]
            && st.stack == seq![1usize],
{
    let ops = seq![OpView::Connect(src), OpView::Connect(snk)];
    reveal_with_fuel(build_spec, 3);
    assert(ops[0] == OpView::Connect(src));
    assert(ops[1] == OpView::Connect(snk));
    let st0 = build_spec(ops, 0)->Ok_0;
    assert(st0.stack.len() == 0);
    assert(build_spec(ops, 1) == crate::stack::build_op(st0, ops[0], 0));
    let st1 = build_spec(ops, 1)->Ok_0;
    assert(st1.stack =~= st0.stack.take(0).push(0usize));
    assert(st1.nodes =~= seq![src]);
    assert(st1.srcs =~~= seq![Seq::<usize>::empty()]);
    assert(st1.stack =~= seq![0usize]);
    assert(build_spec(ops, 2) == crate::stack::build_op(st1, ops[1], 1));
    let st2 = build_spec(ops, 2)->Ok_0;
    assert(st1.stack.subrange(0, 1) =~= seq![0usize]);
    assert(st2.nodes =~= seq![src, snk]);
    assert(st2.srcs =~~= seq![Seq::<usize>::empty(), seq![0usize]]);
    assert(st2.stack =~= seq![1usize]);
}

/// No node appears in a well-formed graph's order before its sources.
pub proof fn law_order_respects_sources(g: AudioGraph, p: int, k: int)
    requires
        g.wf(),
        0 <= p < g.order@.len(),
        0 <= k < srcs_view(g.sources@)[g.order@[p] as int].len(),
    ensures
        exists|q: int|
            0 <= q < p && g.order@[q] == srcs_view(g.sources@)[g.order@[p] as int][k],
{
    assert(respects_at(srcs_view(g.sources@), g.order@, p, k));
    let q = choose|q: int|
        0 <= q < p && g.order@[q] == srcs_view(g.sources@)[g.order@[p] as int][k];
    assert(0 <= q < p && g.order@[q] == srcs_view(g.sources@)[g.order@[p] as int][k]);
}

/// The sampler packs source `i`'s channel `ch` at slot `i + ch * I` of
/// the sink's input buffer, so sources are observed in exactly the
/// order they were installed.
pub proof fn law_packing_order(nodes: Seq<MView>, srcs: Seq<usize>, cc: nat, i: int, ch: int)
    requires
        0 <= i < srcs.len(),
        0 <= ch < cc,
    ensures
        pack_spec(nodes, srcs, cc)[i + ch * srcs.len()] == nodes[srcs[i] as int].out_spec()[ch],
{
    let ii = srcs.len() as int;
    assert(0 <= i + ch * ii < ii * cc) by (nonlinear_arith)
        requires
            0 <= i < ii,
            0 <= ch < cc,
    ;
    lemma_fundamental_div_mod_converse(i + ch * ii, ii, ch, i);
}

/// Every state the compiler can reach is internally consistent: all
/// stack handles point at nodes, and every node's stored source count
/// equals its declared input count.
pub proof fn law_build_state_ok(ops: Seq<OpView>, i: int)
    requires
        0 <= i <= ops.len(),
        build_spec(ops, i) is Ok,
    ensures
        crate::stack::state_ok(build_spec(ops, i)->Ok_0),
    decreases i,
{
    if i > 0 {
        law_build_state_ok(ops, i - 1);
        let st = build_spec(ops, i - 1)->Ok_0;
        let post = build_spec(ops, i)->Ok_0;
        match ops[i - 1] {
            OpView::Connect(m) => {
                let k = m.inputs_spec() as int;
                assert forall|t: int| 0 <= t < post.stack.len() implies (#[trigger] post.stack[t])
                    < post.nodes.len() by {
                    if t < post.stack.len() - 1 {
                        assert(post.stack[t] == st.stack.take(st.stack.len() - k)[t]);
                    }
                }
                assert forall|n: int| 0 <= n < post.nodes.len() implies (#[trigger] post.srcs[n]).len()
                    == post.nodes[n].inputs_spec() by {
                    if n < post.nodes.len() - 1 {
                        assert(post.srcs[n] == st.srcs[n]);
                        assert(post.nodes[n] == st.nodes[n]);
                    } else {
                        assert(post.srcs[n].len() == k);
                    }
                }
            },
            OpView::Pop => {},
            OpView::Dup => {},
            OpView::Swap => {},
            OpView::Rot => {},
        }
    }
}

} // verus!
