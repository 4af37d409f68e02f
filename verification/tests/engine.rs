//! End-to-end tests of the engine: graphs built by hand and from text,
//! run frame by frame, checked against exact fixed-point values or
//! against real-valued expectations within tolerance.

use sound_garden::parse::{parse_graph, parse_ops, Error, ParseError};
use sound_garden::stack::Error as StackError;
use sound_garden::{
    AudioGraph, Constant, Delay, Fn2, Metro, ModuleKind, SampleAndHold, WhiteNoise, BinaryFn,
    SCALE,
};

fn to_f(x: i64) -> f64 {
    x as f64 / SCALE as f64
}

#[test]
fn constant_outputs_value_every_frame() {
    let mut g = AudioGraph::new(1, 0);
    let v = 3 * SCALE;
    let idx = g.add_node(ModuleKind::Constant(Constant::new(1, v)));
    g.update_order();
    let input: [i64; 0] = [];
    for _ in 0..16 {
        g.sample(&input);
        assert_eq!(g.output()[0], v);
        assert_eq!(idx, 0);
    }
}

#[test]
fn sine_program_peaks_at_quarter_period() {
    let mut g = parse_graph("440 s", 1, 48000, 0).expect("parse");
    let input: [i64; 0] = [];
    let mut first = None;
    let mut out_at_quarter = 0i64;
    let quarter = 48000 / 440 / 4; // 27 frames
    for n in 0..=quarter {
        g.sample(&input);
        if n == 0 {
            first = Some(g.output()[0]);
        }
        out_at_quarter = g.output()[0];
    }
    // near the start of the cycle the output is still close to zero
    assert!(to_f(first.unwrap()).abs() < 0.1);
    // at the quarter period the sine is at its peak, within two percent
    assert!((to_f(out_at_quarter) - 1.0).abs() < 0.02);
}

#[test]
fn pan_program_splits_equal_power() {
    let mut g = parse_graph("[0.5] [0.0] pan1", 2, 48000, 0).expect("parse");
    let input: [i64; 0] = [];
    for _ in 0..4 {
        g.sample(&input);
        let l = to_f(g.output()[0]);
        let r = to_f(g.output()[1]);
        assert!((l - 0.35355).abs() < 1e-3, "left {l}");
        assert!((r - 0.35355).abs() < 1e-3, "right {r}");
    }
}

#[test]
fn metro_fires_every_period_from_frame_zero() {
    let mut g = parse_graph("1 m", 1, 4, 0).expect("parse");
    let input: [i64; 0] = [];
    let mut fires = Vec::new();
    for _ in 0..12 {
        g.sample(&input);
        fires.push(g.output()[0]);
    }
    for (n, v) in fires.iter().enumerate() {
        if n % 4 == 0 {
            assert_eq!(*v, SCALE, "frame {n} should fire");
        } else {
            assert_eq!(*v, 0, "frame {n} should be silent");
        }
    }
}

#[test]
fn delay_program_exhausts_stack_when_operands_missing() {
    let ops = parse_ops("in delay:1.0 2.0 swap", 1, 48000).expect("parse");
    let r = sound_garden::stack::build_graph(ops, 1, 0);
    match r {
        Err(StackError::StackExhausted(i)) => assert_eq!(i, 1),
        _ => panic!("expected stack exhaustion"),
    }
}

#[test]
fn delay_sources_follow_stack_order() {
    // `1 in delay:1.0`: the handles popped are [Constant, Input], the
    // top of the stack last, so the Constant feeds the delay's first
    // input and the Input its second.
    let g = parse_graph("1 in delay:1.0", 1, 10, 0).expect("parse");
    assert_eq!(g.sources[2], vec![0usize, 1usize]);
}

#[test]
fn noise_times_one_is_raw_noise() {
    let seed = 42u64;
    let mut raw = WhiteNoise::with_seed(1, seed);
    let mut g = AudioGraph::new(1, 0);
    let one = g.add_node(ModuleKind::Constant(Constant::new(1, SCALE)));
    let noise = g.add_node(ModuleKind::WhiteNoise(WhiteNoise::with_seed(1, seed)));
    let product = g.add_node(ModuleKind::Fn2(Fn2::new(1, BinaryFn::Mul)));
    g.set_sources(product, &[one, noise]);
    let input: [i64; 0] = [];
    for _ in 0..64 {
        g.sample(&input);
        raw.sample(&input);
        let expected = raw.output()[0];
        assert!(-SCALE <= expected && expected < SCALE);
        assert_eq!(g.output()[0], expected);
    }
}

#[test]
fn phasor_cosine_is_periodic() {
    let mut g = parse_graph("100 w cos", 1, 48000, 0).expect("parse");
    let input: [i64; 0] = [];
    let period = 480;
    let mut outs = Vec::new();
    for _ in 0..(2 * period + 8) {
        g.sample(&input);
        outs.push(to_f(g.output()[0]));
    }
    for n in 0..period {
        assert!((outs[n] - outs[n + period]).abs() < 1e-3, "frame {n}");
    }
}

#[test]
fn sample_and_hold_passes_and_freezes() {
    let mut sh = SampleAndHold::new(1);
    // trigger one: output becomes the input exactly
    sh.sample(&[SCALE, 7 * SCALE]);
    assert_eq!(sh.output()[0], 7 * SCALE);
    // trigger zero: output holds
    sh.sample(&[0, 9 * SCALE]);
    assert_eq!(sh.output()[0], 7 * SCALE);
}

#[test]
fn delay_reproduces_integer_delays_exactly() {
    // one-second ring at eight frames per second
    let mut d = Delay::new(1, 8, SCALE);
    let xs: Vec<i64> = (1..=8).map(|k| k * SCALE).collect();
    let mut outs = Vec::new();
    for &x in xs.iter() {
        // a delay of exactly three frames
        d.sample(&[x, 3 * SCALE / 8]);
        outs.push(d.output()[0]);
    }
    // the output is the input of four frames earlier (one frame of
    // inherent latency plus the three requested), zero before that
    for n in 0..xs.len() {
        let expected = if n >= 4 { xs[n - 4] } else { 0 };
        assert_eq!(outs[n], expected, "frame {n}");
    }
}

#[test]
fn cycle_produces_silence() {
    let mut g = AudioGraph::new(1, 0);
    let a = g.add_node(ModuleKind::Constant(Constant::new(1, SCALE)));
    let b = g.add_node(ModuleKind::Fn2(Fn2::new(1, BinaryFn::Add)));
    g.set_sources(b, &[a, b]);
    assert_eq!(g.order.len(), 0);
    let input: [i64; 0] = [];
    g.sample(&input);
    assert_eq!(g.output()[0], 0);
}

#[test]
fn metro_standalone_first_fire_is_immediate() {
    let mut m = Metro::new(1, 4);
    m.sample(&[SCALE]);
    assert_eq!(m.output()[0], SCALE);
    m.sample(&[SCALE]);
    assert_eq!(m.output()[0], 0);
}

#[test]
fn unknown_token_is_reported() {
    match parse_ops("xyzzy", 1, 48000) {
        Err(ParseError::UnknownToken(b)) => assert_eq!(b, b"xyzzy".to_vec()),
        _ => panic!("expected unknown token"),
    }
}

#[test]
fn missing_parameter_is_reported() {
    match parse_ops("conv", 1, 48000) {
        Err(ParseError::NotEnoughParameters(b)) => assert_eq!(b, b"conv".to_vec()),
        _ => panic!("expected missing parameter"),
    }
}

#[test]
fn bad_parameter_is_reported() {
    match parse_ops("delay:abc", 1, 48000) {
        Err(ParseError::WrongParameterType(b)) => assert_eq!(b, b"delay:abc".to_vec()),
        _ => panic!("expected bad parameter"),
    }
}

#[test]
fn first_bad_token_wins() {
    match parse_ops("440 s zork conv", 1, 48000) {
        Err(ParseError::UnknownToken(b)) => assert_eq!(b, b"zork".to_vec()),
        _ => panic!("expected the unknown token first"),
    }
}

#[test]
fn comments_and_brackets_are_whitespace() {
    let ops = parse_ops("440 // a comment\n[ 2 ] ,3", 1, 48000).expect("parse");
    assert_eq!(ops.len(), 3);
    let g = parse_graph("440 // a comment\n[ 2 ] ,3", 1, 48000, 0).expect("parse");
    assert_eq!(g.nodes.len(), 3);
}

#[test]
fn parse_graph_reports_stack_errors() {
    match parse_graph("swap", 1, 48000, 0) {
        Err(Error::StackError(StackError::StackExhausted(i))) => assert_eq!(i, 0),
        _ => panic!("expected stack error"),
    }
}

#[test]
fn exponent_and_signed_literals() {
    let input: [i64; 0] = [];
    // 2e3 == 2000
    let mut g = parse_graph("2e3", 1, 48000, 0).expect("parse");
    g.sample(&input);
    assert_eq!(g.output()[0], 2000 * SCALE);
    // -2.5e-1 == -0.25, exactly representable
    let mut g = parse_graph("-2.5e-1", 1, 48000, 0).expect("parse");
    g.sample(&input);
    assert_eq!(g.output()[0], -(SCALE / 4));
    // an explicit plus sign and a capital mark
    let mut g = parse_graph("+1E2", 1, 48000, 0).expect("parse");
    g.sample(&input);
    assert_eq!(g.output()[0], 100 * SCALE);
    // a huge exponent saturates instead of overflowing
    let mut g = parse_graph("1e99", 1, 48000, 0).expect("parse");
    g.sample(&input);
    assert_eq!(g.output()[0], i64::MAX);
    // a mark without digits is no literal
    match parse_ops("1e", 1, 48000) {
        Err(ParseError::UnknownToken(b)) => assert_eq!(b, b"1e".to_vec()),
        _ => panic!("expected unknown token"),
    }
}

#[test]
fn negative_and_fractional_literals() {
    let mut g = parse_graph("-2.5", 1, 48000, 0).expect("parse");
    let input: [i64; 0] = [];
    g.sample(&input);
    assert_eq!(g.output()[0], -(5 * SCALE / 2));
}

#[test]
fn input_module_forwards_external_frame() {
    let mut g = parse_graph("in", 1, 48000, 1).expect("parse");
    g.sample(&[11 * SCALE]);
    assert_eq!(g.output()[0], 11 * SCALE);
    g.sample(&[-3 * SCALE]);
    assert_eq!(g.output()[0], -3 * SCALE);
}

#[test]
fn parameter_module_reads_past_channels() {
    let mut g = parse_graph("param:1", 2, 48000, 4).expect("parse");
    g.sample(&[0, 0, 5 * SCALE, 6 * SCALE]);
    assert_eq!(g.output()[0], 6 * SCALE);
    assert_eq!(g.output()[1], 6 * SCALE);
}

#[test]
fn set_sources_order_is_packing_order() {
    // a two-channel zip over two constants observes source order
    let mut g = AudioGraph::new(2, 0);
    let a = g.add_node(ModuleKind::Constant(Constant::new(2, SCALE)));
    let b = g.add_node(ModuleKind::Constant(Constant::new(2, 2 * SCALE)));
    let z = g.add_node(ModuleKind::Zip(sound_garden::Zip::new(2)));
    g.set_sources(z, &[a, b]);
    let input: [i64; 0] = [];
    g.sample(&input);
    assert_eq!(g.output()[0], SCALE);
    assert_eq!(g.output()[1], 2 * SCALE);
    // swapping the sources swaps the packed order
    g.set_sources(z, &[b, a]);
    g.sample(&input);
    assert_eq!(g.output()[0], 2 * SCALE);
    assert_eq!(g.output()[1], SCALE);
}

#[test]
fn topological_order_respects_edges() {
    let mut g = AudioGraph::new(1, 0);
    let c = g.add_node(ModuleKind::Constant(Constant::new(1, SCALE)));
    let f = g.add_node(ModuleKind::Fn2(Fn2::new(1, BinaryFn::Add)));
    let h = g.add_node(ModuleKind::Fn2(Fn2::new(1, BinaryFn::Mul)));
    g.set_sources(h, &[c, f]);
    g.set_sources(f, &[c, c]);
    let pos = |x: usize| g.order.iter().position(|&y| y == x).unwrap();
    assert_eq!(g.order.len(), 3);
    assert!(pos(c) < pos(f));
    assert!(pos(f) < pos(h));
}
