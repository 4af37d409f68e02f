//! The text front-end: a whitespace-separated tokenizer over the
//! program bytes (ASCII whitespace, brackets and commas separate
//! tokens; `//` starts a line comment), a decimal-literal reader
//! producing fixed-point samples (optional sign, digits with an
//! optional fraction, an optional power-of-ten exponent), and the
//! table mapping tokens to operations.
//!
//! A `delay` or `feedback` token's maximum time is a fixed-point
//! second count; the ring it allocates is `delay_frames` long, which
//! caps absurd requests (see [`crate::delay::delay_frames`]).

use crate::biquad::{BiQuad, BiQuadKind, BiQuadView};
use crate::constant::{Constant, ConstantView};
use crate::convolution::{Convolution, ConvolutionM, ConvolutionMView, ConvolutionView};
use crate::delay::{delay_frames, Delay, DelayView};
use crate::feedback::{Feedback, FeedbackView};
use crate::filters::{angular_period, HPFView, LPFView, HPF, LPF};
use crate::function::{Fn1, Fn1View, Fn2, Fn2View, Fn3, Fn3View};
use crate::graph::AudioGraph;
use crate::impulse::{Impulse, ImpulseView};
use crate::input::{Input, InputView};
use crate::metro::{
    DMetro, DMetroHold, DMetroHoldView, DMetroView, Metro, MetroHold, MetroHoldView, MetroView,
};
use crate::module::{MView, ModuleKind};
use crate::noise::{WhiteNoise, WhiteNoiseView};
use crate::osc::{Osc, OscPhase, OscPhaseView, OscView};
use crate::pan::{Pan1, Pan1View, Pan2, Pan2View};
use crate::parameter::{Parameter, ParameterView};
use crate::phasor::{Phasor, Phasor0, Phasor0View, PhasorView};
use crate::pulse::{Pulse, PulseView};
use crate::pure::{BinaryFn, TernaryFn, UnaryFn};
use crate::sample::{sat, Sample, SCALE};
use crate::sample_and_hold::{SampleAndHold, SampleAndHoldView};
use crate::stack::{Op, OpView};
use crate::zip::{Zip, ZipView};
use vstd::prelude::*;
use vstd::string::StringSliceAdditionalSpecFns;

verus! {

/// Token separators: ASCII whitespace, brackets and the comma.
pub open spec fn is_sep(b: u8) -> bool {
    b == 32 || b == 9 || b == 10 || b == 13 || b == 11 || b == 12 || b == 91 || b == 93 || b == 44
}

/// A line comment starts here.
pub open spec fn comment_at(s: Seq<u8>, i: int) -> bool {
    i + 1 < s.len() && s[i] == 47 && s[i + 1] == 47
}

/// The tokens of the remaining input, given the partial token read so
/// far and whether a comment is being skipped.
pub open spec fn scan(s: Seq<u8>, i: int, cur: Seq<u8>, in_comment: bool) -> Seq<Seq<u8>>
    decreases s.len() - i when 0 <= i <= s.len()
{
    if i >= s.len() {
        if cur.len() > 0 {
            seq![cur]
        } else {
            Seq::empty()
        }
    } else if in_comment {
        if s[i] == 10 {
            scan(s, i + 1, Seq::empty(), false)
        } else {
            scan(s, i + 1, cur, true)
        }
    } else if comment_at(s, i) {
        if cur.len() > 0 {
            seq![cur] + scan(s, i + 1, Seq::empty(), true)
        } else {
            scan(s, i + 1, cur, true)
        }
    } else if is_sep(s[i]) {
        if cur.len() > 0 {
            seq![cur] + scan(s, i + 1, Seq::empty(), false)
        } else {
            scan(s, i + 1, cur, false)
        }
    } else {
        scan(s, i + 1, cur.push(s[i]), false)
    }
}

/// The whitespace-separated tokens of a program.
pub open spec fn tokens(s: Seq<u8>) -> Seq<Seq<u8>> {
    scan(s, 0, Seq::empty(), false)
}

/// The views of a token list.
pub open spec fn toks_view(ts: Seq<Vec<u8>>) -> Seq<Seq<u8>> {
    ts.map_values(|t: Vec<u8>| t@)
}

/// Split a program into tokens.
pub fn tokenize(s: &[u8]) -> (r: Vec<Vec<u8>>)
    ensures
        toks_view(r@) == tokens(s@),
{
    let n = s.len();
    let mut out: Vec<Vec<u8>> = Vec::new();
    let mut cur: Vec<u8> = Vec::new();
    let mut in_comment: bool = false;
    let mut i: usize = 0;
    while i < n
        invariant
            i <= n,
            n == s@.len(),
            in_comment ==> cur@.len() == 0,
            tokens(s@) == toks_view(out@) + scan(s@, i as int, cur@, in_comment),
        decreases n - i,
    {
        let b = s[i];
        if in_comment {
            proof {
                assert(cur@ =~= Seq::<u8>::empty());
            }
            if b == 10 {
                in_comment = false;
            }
        } else if b == 47 && i + 1 < n && s[i + 1] == 47 {
            if cur.len() > 0 {
                let done = cur;
                cur = Vec::new();
                out.push(done);
                proof {
                    assert(toks_view(out@) =~= toks_view(out@.drop_last()) + seq![
                        out@.last()@,
                    ]);
                    assert(toks_view(out@.drop_last()) + seq![out@.last()@] + scan(
                        s@,
                        i as int + 1,
                        Seq::<u8>::empty(),
                        true,
                    ) =~= toks_view(out@.drop_last()) + (seq![out@.last()@] + scan(
                        s@,
                        i as int + 1,
                        Seq::<u8>::empty(),
                        true,
                    )));
                }
            }
            in_comment = true;
        } else if b == 32 || b == 9 || b == 10 || b == 13 || b == 11 || b == 12 || b == 91 || b
            == 93 || b == 44 {
            if cur.len() > 0 {
                let done = cur;
                cur = Vec::new();
                out.push(done);
                proof {
                    assert(toks_view(out@) =~= toks_view(out@.drop_last()) + seq![
                        out@.last()@,
                    ]);
                    assert(toks_view(out@.drop_last()) + seq![out@.last()@] + scan(
                        s@,
                        i as int + 1,
                        Seq::<u8>::empty(),
                        false,
                    ) =~= toks_view(out@.drop_last()) + (seq![out@.last()@] + scan(
                        s@,
                        i as int + 1,
                        Seq::<u8>::empty(),
                        false,
                    )));
                }
            }
        } else {
            cur.push(b);
        }
        i = i + 1;
    }
    if cur.len() > 0 {
        let done = cur;
        out.push(done);
        proof {
            assert(toks_view(out@) =~= toks_view(out@.drop_last()) + seq![out@.last()@]);
            assert(toks_view(out@.drop_last()) + seq![out@.last()@] =~= toks_view(
                out@.drop_last(),
            ) + seq![out@.last()@] + Seq::<Seq<u8>>::empty());
        }
        proof {
            assert(tokens(s@) =~= toks_view(out@));
        }
    } else {
        proof {
            assert(tokens(s@) =~= toks_view(out@));
        }
    }
    out
}

/// A decimal digit.
pub open spec fn is_digit(b: u8) -> bool {
    48 <= b <= 57
}

pub open spec fn all_digits(s: Seq<u8>) -> bool {
    forall|i: int| 0 <= i < s.len() ==> is_digit(#[trigger] s[i])
}

/// The value of a digit string.
pub open spec fn digits_val(s: Seq<u8>) -> int
    decreases s.len(),
{
    if s.len() == 0 {
        0
    } else {
        digits_val(s.drop_last()) * 10 + (s.last() - 48)
    }
}

pub open spec fn pow10(k: nat) -> int
    decreases k,
{
    if k == 0 {
        1
    } else {
        10 * pow10((k - 1) as nat)
    }
}

/// The first position of byte `b` at or after `i`, or the length.
pub open spec fn find_byte(s: Seq<u8>, b: u8, i: int) -> int
    decreases s.len() - i when 0 <= i <= s.len()
{
    if i >= s.len() {
        s.len() as int
    } else if s[i] == b {
        i
    } else {
        find_byte(s, b, i + 1)
    }
}

/// The fixed-point value of an unsigned decimal literal `digits[.digits]`,
/// or nothing when the bytes are not such a literal.  Fractional digits
/// beyond the representable precision are read and ignored.
pub open spec fn magnitude_val(s: Seq<u8>) -> Option<int> {
    let dp = find_byte(s, 46, 0);
    let ip = s.take(dp);
    let fp = if dp == s.len() {
        Seq::<u8>::empty()
    } else {
        s.subrange(dp + 1, s.len() as int)
    };
    if all_digits(ip) && all_digits(fp) && ip.len() + fp.len() > 0 {
        let fl = if fp.len() > 18 {
            18int
        } else {
            fp.len() as int
        };
        Some(digits_val(ip) * SCALE + (digits_val(fp.take(fl)) * SCALE) / pow10(fl as nat))
    } else {
        None
    }
}

/// The first exponent mark (`e` or `E`) at or after `i`, or the length.
pub open spec fn find_exp_mark(s: Seq<u8>, i: int) -> int
    decreases s.len() - i when 0 <= i <= s.len()
{
    if i >= s.len() {
        s.len() as int
    } else if s[i] == 101 || s[i] == 69 {
        i
    } else {
        find_exp_mark(s, i + 1)
    }
}

/// The signed exponent of a literal's exponent part: an optional sign,
/// then at least one digit.
pub open spec fn exp_val(s: Seq<u8>) -> Option<int> {
    if s.len() > 0 && (s[0] == 45 || s[0] == 43) {
        let d = s.subrange(1, s.len() as int);
        if all_digits(d) && d.len() > 0 {
            if s[0] == 45 {
                Some(-digits_val(d))
            } else {
                Some(digits_val(d))
            }
        } else {
            None
        }
    } else {
        if all_digits(s) && s.len() > 0 {
            Some(digits_val(s))
        } else {
            None
        }
    }
}

/// A non-negative sample scaled by a power of ten, rounded toward zero
/// and saturated.
pub open spec fn scale_exp(b: int, e: int) -> int {
    if e >= 0 {
        sat(b * pow10(e as nat))
    } else {
        sat(b / pow10((-e) as nat))
    }
}

/// An unsigned decimal literal with an optional exponent part: the
/// mantissa (saturated into the sample range) scaled by the power of
/// ten the exponent names.
#[verifier::opaque]
pub open spec fn sci_val(s: Seq<u8>) -> Option<int> {
    let ep = find_exp_mark(s, 0);
    if ep == s.len() {
        magnitude_val(s)
    } else {
        match (magnitude_val(s.take(ep)), exp_val(s.subrange(ep + 1, s.len() as int))) {
            (Some(b), Some(e)) => Some(scale_exp(sat(b), e)),
            _ => None,
        }
    }
}

/// The fixed-point value of a signed decimal literal (an optional sign,
/// digits with an optional fraction, and an optional exponent),
/// saturated into the sample range.
pub open spec fn literal_val(s: Seq<u8>) -> Option<int> {
    if s.len() > 0 && s[0] == 45 {
        match sci_val(s.subrange(1, s.len() as int)) {
            Some(v) => Some(sat(-sat(v))),
            None => None,
        }
    } else if s.len() > 0 && s[0] == 43 {
        match sci_val(s.subrange(1, s.len() as int)) {
            Some(v) => Some(sat(v)),
            None => None,
        }
    } else {
        match sci_val(s) {
            Some(v) => Some(sat(v)),
            None => None,
        }
    }
}

proof fn lemma_digits_val_nonneg(s: Seq<u8>)
    requires
        all_digits(s),
    ensures
        digits_val(s) >= 0,
    decreases s.len(),
{
    if s.len() > 0 {
        assert(all_digits(s.drop_last())) by {
            assert(forall|i: int|
                0 <= i < s.len() - 1 ==> is_digit(#[trigger] s.drop_last()[i]) == is_digit(
                    s[i],
                ));
        }
        lemma_digits_val_nonneg(s.drop_last());
    }
}

/// Read an unsigned decimal literal, saturating positive.
fn magnitude_exec(s: &[u8]) -> (r: Option<Sample>)
    ensures
        match r {
            Some(v) => magnitude_val(s@) matches Some(w) && v == sat(w) && v >= 0,
            None => magnitude_val(s@) is None,
        },
{
    let n = s.len();
    let mut dp: usize = 0;
    while dp < n && s[dp] != 46
        invariant
            0 <= dp <= n,
            n == s@.len(),
            find_byte(s@, 46, 0) == find_byte(s@, 46, dp as int),
        decreases n - dp,
    {
        dp = dp + 1;
    }
    proof {
        assert(find_byte(s@, 46, 0) == dp);
    }
    let ghost ip = s@.take(dp as int);
    let ghost fp = if dp as int == s@.len() {
        Seq::<u8>::empty()
    } else {
        s@.subrange(dp as int + 1, s@.len() as int)
    };
    // the literal must hold at least one digit position
    if dp == 0 && (dp >= n || dp + 1 >= n) {
        proof {
            assert(ip.len() == 0);
            assert(fp.len() == 0);
        }
        return None;
    }
    // whole part
    let mut acc: u128 = 0;
    let mut big: bool = false;
    let mut j: usize = 0;
    while j < dp
        invariant
            0 <= j <= dp <= n,
            n == s@.len(),
            find_byte(s@, 46, 0) == dp,
            ip == s@.take(dp as int),
            forall|t: int| 0 <= t < j ==> is_digit(#[trigger] s@[t]),
            !big ==> acc == digits_val(ip.take(j as int)) && acc <= 0x1_0000_0000u128,
            big ==> digits_val(ip.take(j as int)) > 0x1_0000_0000,
            big ==> all_digits(ip.take(j as int)),
        decreases dp - j,
    {
        let b = s[j];
        if b < 48 || b > 57 {
            proof {
                assert(ip[j as int] == s@[j as int]);
                assert(!is_digit(ip[j as int]));
            }
            return None;
        }
        proof {
            assert(ip.take(j as int + 1).drop_last() =~= ip.take(j as int));
            assert(ip.take(j as int + 1).last() == s@[j as int]);
            assert(all_digits(ip.take(j as int + 1))) by {
                assert(forall|t: int|
                    0 <= t < j + 1 ==> is_digit(#[trigger] ip.take(j as int + 1)[t]) == is_digit(
                        s@[t],
                    ));
            }
        }
        if big {
            proof {
                lemma_digits_val_nonneg(ip.take(j as int));
                assert(digits_val(ip.take(j as int + 1)) == digits_val(ip.take(j as int)) * 10 + (
                s@[j as int] - 48));
                assert(digits_val(ip.take(j as int)) * 10 >= digits_val(ip.take(j as int)))
                    by (nonlinear_arith)
                    requires
                        digits_val(ip.take(j as int)) >= 0,
                ;
            }
        } else {
            acc = acc * 10 + ((b - 48) as u128);
            if acc > 0x1_0000_0000u128 {
                big = true;
            }
        }
        j = j + 1;
    }
    proof {
        assert(ip.take(dp as int) =~= ip);
        assert(all_digits(ip)) by {
            assert(forall|t: int|
                0 <= t < ip.len() ==> is_digit(#[trigger] ip[t]) == is_digit(s@[t]));
        }
    }
    // fractional part
    let fstart: usize = if dp < n {
        dp + 1
    } else {
        dp
    };
    let mut fnum: u128 = 0;
    let mut fl: usize = 0;
    let mut j: usize = fstart;
    while j < n
        invariant
            fstart <= j,
            j <= n || j == fstart,
            dp < n ==> fstart == dp + 1,
            dp >= n ==> fstart == dp && fstart >= n,
            n == s@.len(),
            dp <= n,
            find_byte(s@, 46, 0) == dp,
            ip == s@.take(dp as int),
            all_digits(ip),
            fp == (if dp as int == s@.len() {
                Seq::<u8>::empty()
            } else {
                s@.subrange(dp as int + 1, s@.len() as int)
            }),
            dp < n ==> fp.len() == n - fstart,
            dp < n ==> j <= n,
            forall|t: int| 0 <= t < j - fstart ==> is_digit(#[trigger] fp[t]),
            fl == (if j - fstart > 18 {
                18int
            } else {
                j - fstart
            }),
            fnum == digits_val(fp.take(fl as int)),
            fnum < 0x0de0_b6b3_a764_0000u128,
        decreases n - j,
    {
        let b = s[j];
        if b < 48 || b > 57 {
            proof {
                assert(fp[j - fstart] == s@[j as int]);
                assert(!is_digit(fp[j - fstart]));
            }
            return None;
        }
        if fl < 18 {
            proof {
                assert(fp.take(fl as int + 1).drop_last() =~= fp.take(fl as int));
                assert(fp.take(fl as int + 1).last() == fp[fl as int]);
                assert(fp[fl as int] == s@[j as int]);
                assert(all_digits(fp.take(fl as int))) by {
                    assert(forall|t: int|
                        0 <= t < fl ==> is_digit(#[trigger] fp.take(fl as int)[t]) == is_digit(
                            fp[t],
                        ));
                }
                lemma_digits_val_nonneg(fp.take(fl as int));
            }
            fnum = fnum * 10 + ((b - 48) as u128);
            fl = fl + 1;
            proof {
                assert(all_digits(fp.take(fl as int))) by {
                    assert(forall|t: int|
                        0 <= t < fl ==> is_digit(#[trigger] fp.take(fl as int)[t]) == is_digit(
                            fp[t],
                        ));
                }
                lemma_digits_bound(fp.take(fl as int), fl as nat);
            }
        }
        j = j + 1;
    }
    proof {
        assert(all_digits(fp)) by {
            assert(forall|t: int|
                0 <= t < fp.len() ==> is_digit(#[trigger] fp[t]) == is_digit(s@[t + fstart]));
        }
        assert(ip.len() + fp.len() > 0);
        if fp.len() <= 18 {
            assert(fp.take(fl as int) =~= fp);
        }
    }
    // pow10(fl)
    let mut p10: u128 = 1;
    let mut t: usize = 0;
    while t < fl
        invariant
            t <= fl,
            fl <= 18,
            p10 == pow10(t as nat),
            p10 <= 0x0de0_b6b3_a764_0000u128,
        decreases fl - t,
    {
        proof {
            lemma_pow10_bound(t as nat + 1);
        }
        p10 = p10 * 10;
        t = t + 1;
    }
    proof {
        assert((fnum as int) * (SCALE as int) < 0x0de0_b6b3_a764_0000 * 0x1_0000_0000)
            by (nonlinear_arith)
            requires
                0 <= fnum < 0x0de0_b6b3_a764_0000u128,
                SCALE == 0x1_0000_0000,
        ;
        lemma_pow10_bound(fl as nat);
    }
    let frac_part: u128 = (fnum * (SCALE as u128)) / p10;
    let ghost w = digits_val(ip) * SCALE + (digits_val(fp.take(
        if fp.len() > 18 {
            18int
        } else {
            fp.len() as int
        },
    )) * SCALE) / pow10(
        (if fp.len() > 18 {
            18int
        } else {
            fp.len() as int
        }) as nat,
    );
    proof {
        assert(magnitude_val(s@) == Some(w));
        lemma_digits_bound(fp.take(fl as int), fl as nat);
        lemma_frac_small(digits_val(fp.take(fl as int)), fl as nat, p10 as int);
        assert(frac_part as int == (digits_val(fp.take(fl as int)) * SCALE) / pow10(fl as nat));
        assert(frac_part < SCALE as u128);
    }
    if big {
        proof {
            lemma_sat_big(w, digits_val(ip), (frac_part as int));
        }
        return Some(i64::MAX);
    }
    proof {
        lemma_digits_val_nonneg(ip);
        assert((acc as int) * (SCALE as int) <= 0x1_0000_0000 * 0x1_0000_0000)
            by (nonlinear_arith)
            requires
                0 <= acc <= 0x1_0000_0000u128,
                SCALE == 0x1_0000_0000,
        ;
    }
    let whole: u128 = acc * (SCALE as u128);
    let total: u128 = whole + frac_part;
    proof {
        assert(total as int == w);
    }
    if total > i64::MAX as u128 {
        Some(i64::MAX)
    } else {
        Some(total as i64)
    }
}

/// Read an exponent part: `[+|-]digits`.  Values beyond the scaling
/// range are reported as just past it, which scales the same way.
fn exp_exec(s: &[u8]) -> (r: Option<i64>)
    ensures
        match r {
            Some(e) => exp_val(s@) matches Some(v) && ((-18 <= v <= 18 && e == v) || (v > 18 && e
                == 19) || (v < -18 && e == -19)),
            None => exp_val(s@) is None,
        },
{
    let n = s.len();
    let neg: bool = n > 0 && s[0] == 45;
    let start: usize = if n > 0 && (s[0] == 45 || s[0] == 43) {
        1
    } else {
        0
    };
    let ghost d = if start == 1 {
        s@.subrange(1, s@.len() as int)
    } else {
        s@
    };
    if start >= n {
        proof {
            assert(d.len() == 0);
        }
        return None;
    }
    let mut acc: u64 = 0;
    let mut big: bool = false;
    let mut j: usize = start;
    while j < n
        invariant
            start <= j <= n,
            n == s@.len(),
            start == 0 || start == 1,
            (start == 1) == (n > 0 && (s@[0] == 45 || s@[0] == 43)),
            d == (if start == 1 {
                s@.subrange(1, s@.len() as int)
            } else {
                s@
            }),
            d.len() == n - start,
            forall|u: int| 0 <= u < j - start ==> is_digit(#[trigger] d[u]),
            !big ==> acc == digits_val(d.take(j - start)) && acc <= 18,
            big ==> digits_val(d.take(j - start)) > 18,
        decreases n - j,
    {
        let b = s[j];
        if b < 48 || b > 57 {
            proof {
                assert(d[j - start] == s@[j as int]);
                assert(!is_digit(d[j - start]));
            }
            return None;
        }
        proof {
            let jd = j - start;
            assert(d.take(jd + 1).drop_last() =~= d.take(jd as int));
            assert(d.take(jd + 1).last() == d[jd as int]);
            assert(d[jd as int] == s@[j as int]);
            assert(all_digits(d.take(jd as int))) by {
                assert(forall|u: int|
                    0 <= u < jd ==> is_digit(#[trigger] d.take(jd as int)[u]) == is_digit(d[u]));
            }
            lemma_digits_val_nonneg(d.take(jd as int));
        }
        if big {
            proof {
                let jd = j - start;
                assert(digits_val(d.take(jd + 1)) == digits_val(d.take(jd as int)) * 10 + (
                s@[j as int] - 48));
                assert(digits_val(d.take(jd as int)) * 10 >= digits_val(d.take(jd as int)))
                    by (nonlinear_arith)
                    requires
                        digits_val(d.take(jd as int)) >= 0,
                ;
            }
        } else {
            acc = acc * 10 + ((b - 48) as u64);
            if acc > 18 {
                big = true;
            }
        }
        j = j + 1;
    }
    proof {
        assert(d.take(n - start) =~= d);
        assert(all_digits(d)) by {
            assert(forall|u: int| 0 <= u < d.len() ==> is_digit(#[trigger] d[u]));
        }
    }
    if big {
        if neg {
            Some(-19)
        } else {
            Some(19)
        }
    } else {
        if neg {
            Some(-(acc as i64))
        } else {
            Some(acc as i64)
        }
    }
}

/// Apply a decimal exponent to a saturated non-negative sample.
fn scale_exp_exec(b: Sample, e: i64) -> (r: Sample)
    requires
        0 <= b,
        -19 <= e <= 19,
    ensures
        -18 <= e <= 18 ==> r == scale_exp(b as int, e as int),
        e == 19 ==> forall|v: int| v > 18 ==> r == scale_exp(b as int, v),
        e == -19 ==> forall|v: int| v < -18 ==> r == scale_exp(b as int, v),
{
    if e == 19 {
        // beyond the representable range: any positive mantissa saturates
        if b == 0 {
            proof {
                assert forall|v: int| v > 18 implies scale_exp(0, v) == 0 by {
                    assert(0 * pow10(v as nat) == 0) by (nonlinear_arith);
                }
            }
            return 0;
        }
        proof {
            assert forall|v: int| v > 18 implies scale_exp(b as int, v) == i64::MAX as int by {
                lemma_pow10_monotone(19, v as nat);
                lemma_pow10_exact19();
                assert(b * pow10(v as nat) >= pow10(v as nat)) by (nonlinear_arith)
                    requires
                        b >= 1,
                        pow10(v as nat) >= 0,
                ;
            }
        }
        return i64::MAX;
    }
    if e == -19 {
        // dividing by more than the whole range flushes to zero
        proof {
            assert forall|v: int| v < -18 implies scale_exp(b as int, v) == 0 by {
                lemma_pow10_monotone(19, (-v) as nat);
                lemma_pow10_exact19();
                vstd::arithmetic::div_mod::lemma_basic_div(b as int, pow10((-v) as nat));
            }
        }
        return 0;
    }
    let mag: usize = if e < 0 {
        (-e) as usize
    } else {
        e as usize
    };
    let mut p10: u128 = 1;
    let mut k: usize = 0;
    while k < mag
        invariant
            k <= mag,
            mag <= 18,
            p10 == pow10(k as nat),
            p10 <= 0x0de0_b6b3_a764_0000u128,
        decreases mag - k,
    {
        proof {
            lemma_pow10_bound(k as nat + 1);
        }
        p10 = p10 * 10;
        k = k + 1;
    }
    if e >= 0 {
        proof {
            assert((b as u128) * p10 <= 0x8000_0000_0000_0000u128 * 0x0de0_b6b3_a764_0000u128)
                by (nonlinear_arith)
                requires
                    b as u128 <= 0x8000_0000_0000_0000u128,
                    p10 <= 0x0de0_b6b3_a764_0000u128,
            ;
        }
        let w: u128 = (b as u128) * p10;
        if w > i64::MAX as u128 {
            i64::MAX
        } else {
            w as i64
        }
    } else {
        proof {
            lemma_pow10_bound(mag as nat);
        }
        let w: u128 = (b as u128) / p10;
        proof {
            vstd::arithmetic::div_mod::lemma_div_is_ordered_by_denominator(b as int, 1, p10 as int);
        }
        w as i64
    }
}

/// Read an unsigned literal with an optional exponent part.
fn sci_exec(s: &[u8]) -> (r: Option<Sample>)
    ensures
        match r {
            Some(v) => sci_val(s@) matches Some(w) && v == sat(w),
            None => sci_val(s@) is None,
        },
{
    proof {
        reveal(sci_val);
    }
    let n = s.len();
    let mut ep: usize = 0;
    while ep < n && s[ep] != 101 && s[ep] != 69
        invariant
            0 <= ep <= n,
            n == s@.len(),
            find_exp_mark(s@, 0) == find_exp_mark(s@, ep as int),
        decreases n - ep,
    {
        ep = ep + 1;
    }
    proof {
        assert(find_exp_mark(s@, 0) == ep);
    }
    if ep == n {
        return magnitude_exec(s);
    }
    let mant: &[u8] = &s[0..ep];
    let ex: &[u8] = &s[ep + 1..n];
    proof {
        assert(mant@ =~= s@.take(ep as int));
        assert(ex@ =~= s@.subrange(ep as int + 1, s@.len() as int));
    }
    match magnitude_exec(mant) {
        None => None,
        Some(b) => match exp_exec(ex) {
            None => None,
            Some(e) => {
                let v = scale_exp_exec(b, e);
                proof {
                    let w = sci_val(s@)->Some_0;
                    assert(v == w);
                }
                Some(v)
            },
        },
    }
}

/// Read a signed decimal literal into a saturated sample.
pub fn parse_literal(s: &[u8]) -> (r: Option<Sample>)
    ensures
        match r {
            Some(v) => literal_val(s@) == Some(v as int),
            None => literal_val(s@) is None,
        },
{
    if s.len() > 0 && (s[0] == 45 || s[0] == 43) {
        let neg = s[0] == 45;
        let rest: &[u8] = &s[1..s.len()];
        proof {
            assert(rest@ =~= s@.subrange(1, s@.len() as int));
        }
        match sci_exec(rest) {
            Some(v) => {
                if neg {
                    Some(crate::sample::fx_sub(0, v))
                } else {
                    Some(v)
                }
            },
            None => None,
        }
    } else {
        match sci_exec(s) {
            Some(v) => Some(v),
            None => None,
        }
    }
}

proof fn lemma_pow10_exact19()
    ensures
        pow10(19) == 10_000_000_000_000_000_000,
{
    lemma_pow10_exact();
    assert(pow10(19) == 10 * pow10(18));
}

proof fn lemma_digits_bound(s: Seq<u8>, k: nat)
    requires
        all_digits(s),
        s.len() == k,
        k <= 18,
    ensures
        digits_val(s) < pow10(k),
        digits_val(s) < 0x0de0_b6b3_a764_0000,
        digits_val(s) >= 0,
    decreases k,
{
    if k == 0 {
    } else {
        assert(all_digits(s.drop_last())) by {
            assert(forall|i: int|
                0 <= i < s.len() - 1 ==> is_digit(#[trigger] s.drop_last()[i]) == is_digit(
                    s[i],
                ));
        }
        lemma_digits_bound(s.drop_last(), (k - 1) as nat);
        assert(digits_val(s) == digits_val(s.drop_last()) * 10 + (s.last() - 48));
        assert(digits_val(s.drop_last()) * 10 + 9 < pow10(k)) by (nonlinear_arith)
            requires
                digits_val(s.drop_last()) < pow10((k - 1) as nat),
                pow10(k) == 10 * pow10((k - 1) as nat),
        ;
        assert(digits_val(s.drop_last()) * 10 >= 0) by (nonlinear_arith)
            requires
                digits_val(s.drop_last()) >= 0,
        ;
        lemma_pow10_bound(k);
    }
}

proof fn lemma_pow10_bound(k: nat)
    requires
        k <= 18,
    ensures
        pow10(k) <= 0x0de0_b6b3_a764_0000,
        pow10(k) >= 1,
{
    lemma_pow10_exact();
    lemma_pow10_monotone(k, 18);
}

proof fn lemma_pow10_pos(k: nat)
    ensures
        pow10(k) >= 1,
    decreases k,
{
    if k > 0 {
        lemma_pow10_pos((k - 1) as nat);
    }
}

proof fn lemma_pow10_monotone(a: nat, b: nat)
    requires
        a <= b,
    ensures
        1 <= pow10(a) <= pow10(b),
    decreases b - a,
{
    lemma_pow10_pos(a);
    if a < b {
        lemma_pow10_monotone(a, (b - 1) as nat);
        lemma_pow10_pos((b - 1) as nat);
        assert(pow10(b) == 10 * pow10((b - 1) as nat));
    }
}

proof fn lemma_pow10_exact()
    ensures
        pow10(18) == 0x0de0_b6b3_a764_0000,
{
    assert(pow10(0) == 1);
    assert(pow10(1) == 10);
    assert(pow10(2) == 100);
    assert(pow10(3) == 1000);
    assert(pow10(4) == 10000);
    assert(pow10(5) == 100000);
    assert(pow10(6) == 1000000);
    assert(pow10(7) == 10000000);
    assert(pow10(8) == 100000000);
    assert(pow10(9) == 1000000000);
    assert(pow10(10) == 10000000000);
    assert(pow10(11) == 100000000000);
    assert(pow10(12) == 1000000000000);
    assert(pow10(13) == 10000000000000);
    assert(pow10(14) == 100000000000000);
    assert(pow10(15) == 1000000000000000);
    assert(pow10(16) == 10000000000000000);
    assert(pow10(17) == 100000000000000000);
    assert(pow10(18) == 1000000000000000000);
}

proof fn lemma_frac_small(fnum: int, fl: nat, p10: int)
    requires
        0 <= fnum < pow10(fl),
        p10 == pow10(fl),
        fl <= 18,
    ensures
        (fnum * SCALE) / p10 < SCALE,
        (fnum * SCALE) / p10 >= 0,
{
    lemma_pow10_bound(fl);
    assert(fnum * SCALE < p10 * SCALE) by (nonlinear_arith)
        requires
            fnum < p10,
            SCALE > 0,
    ;
    vstd::arithmetic::div_mod::lemma_multiply_divide_lt(fnum * SCALE, p10, SCALE as int);
    assert(fnum * SCALE >= 0) by (nonlinear_arith)
        requires
            fnum >= 0,
    ;
    vstd::arithmetic::div_mod::lemma_div_is_ordered(0, fnum * SCALE, p10);
}

proof fn lemma_sat_big(w: int, ipv: int, frac: int)
    requires
        ipv > 0x1_0000_0000,
        frac >= 0,
        w == ipv * SCALE + frac,
    ensures
        sat(w) == i64::MAX,
{
    assert(ipv * SCALE > 0x1_0000_0000 * SCALE) by (nonlinear_arith)
        requires
            ipv > 0x1_0000_0000,
            SCALE > 0,
    ;
}


/// A byte-string literal.
pub open spec fn sb(s: &str) -> Seq<u8> {
    s.spec_bytes()
}

/// Silence on every channel.
pub open spec fn zeros(c: nat) -> Seq<Sample> {
    Seq::new(c, |i: int| 0i64)
}

pub open spec fn zeros64(c: nat) -> Seq<u64> {
    Seq::new(c, |i: int| 0u64)
}

pub open spec fn falses(c: nat) -> Seq<bool> {
    Seq::new(c, |i: int| false)
}

pub open spec fn consts(c: nat, v: Sample) -> Seq<Sample> {
    Seq::new(c, |i: int| v)
}

pub open spec fn zero_rings(c: nat, l: nat) -> Seq<Seq<Sample>> {
    Seq::new(c, |i: int| zeros(l))
}

pub open spec fn fn1_op(c: nat, f: UnaryFn) -> OpView {
    OpView::Connect(MView::Fn1(Fn1View { ys: zeros(c), f }))
}

pub open spec fn fn2_op(c: nat, f: BinaryFn) -> OpView {
    OpView::Connect(MView::Fn2(Fn2View { ys: zeros(c), f }))
}

pub open spec fn fn3_op(c: nat, f: TernaryFn) -> OpView {
    OpView::Connect(MView::Fn3(Fn3View { ys: zeros(c), f }))
}

pub open spec fn input_op(c: nat) -> OpView {
    OpView::Connect(MView::Input(InputView { output: zeros(c) }))
}

pub open spec fn const_op(c: nat, v: Sample) -> OpView {
    OpView::Connect(MView::Constant(ConstantView { values: consts(c, v) }))
}

pub open spec fn phasor_op(c: nat, rate: nat) -> OpView {
    OpView::Connect(MView::Phasor(PhasorView { phases: zeros(c), sample_rate: rate as int }))
}

pub open spec fn phasor0_op(c: nat, rate: nat) -> OpView {
    OpView::Connect(MView::Phasor0(Phasor0View { phases: zeros(c), sample_rate: rate as int }))
}

pub open spec fn osc_op(c: nat, rate: nat, f: UnaryFn) -> OpView {
    OpView::Connect(
        MView::Osc(
            OscView {
                phasor: PhasorView { phases: zeros(c), sample_rate: rate as int },
                osc: Fn1View { ys: zeros(c), f },
            },
        ),
    )
}

pub open spec fn oscphase_op(c: nat, rate: nat, f: UnaryFn) -> OpView {
    OpView::Connect(
        MView::OscPhase(
            OscPhaseView {
                phasor: Phasor0View { phases: zeros(c), sample_rate: rate as int },
                osc: Fn1View { ys: zeros(c), f },
            },
        ),
    )
}

pub open spec fn pulse_op(c: nat, rate: nat) -> OpView {
    OpView::Connect(
        MView::Pulse(
            PulseView {
                phasor_input: zeros(c),
                osc_input: zeros(2 * c),
                phasor: PhasorView { phases: zeros(c), sample_rate: rate as int },
                osc: Fn2View { ys: zeros(c), f: BinaryFn::Rectangle },
            },
        ),
    )
}

pub open spec fn lpf_op(c: nat, rate: nat) -> OpView {
    OpView::Connect(
        MView::LPF(
            LPFView { output: zeros(c), sample_angular_period: angular_period(rate as int) },
        ),
    )
}

pub open spec fn hpf_op(c: nat, rate: nat) -> OpView {
    OpView::Connect(
        MView::HPF(
            HPFView {
                output: zeros(c),
                sample_angular_period: angular_period(rate as int),
                x_prime: zeros(c),
            },
        ),
    )
}

pub open spec fn biquad_op(c: nat, rate: nat, kind: BiQuadKind) -> OpView {
    OpView::Connect(
        MView::BiQuad(
            BiQuadView {
                kind,
                output: zeros(c),
                phase_per_hertz: crate::sample::divi_spec(SCALE as int, rate as int),
                x1: zeros(c),
                x2: zeros(c),
                y2: zeros(c),
            },
        ),
    )
}

pub open spec fn metro_op(c: nat, rate: nat) -> OpView {
    OpView::Connect(
        MView::Metro(
            MetroView {
                output: zeros(c),
                last_trigger: zeros64(c),
                fired: falses(c),
                frame_number: 0,
                sample_rate: rate as int,
            },
        ),
    )
}

pub open spec fn dmetro_op(c: nat, rate: nat) -> OpView {
    OpView::Connect(
        MView::DMetro(
            DMetroView {
                output: zeros(c),
                last_trigger: zeros64(c),
                fired: falses(c),
                frame_number: 0,
                sample_rate: rate as int,
            },
        ),
    )
}

pub open spec fn metrohold_op(c: nat, rate: nat) -> OpView {
    OpView::Connect(
        MView::MetroHold(
            MetroHoldView {
                output: zeros(c),
                frequencies: zeros(c),
                last_trigger: zeros64(c),
                frame_number: 0,
                sample_rate: rate as int,
            },
        ),
    )
}

pub open spec fn dmetrohold_op(c: nat, rate: nat) -> OpView {
    OpView::Connect(
        MView::DMetroHold(
            DMetroHoldView {
                output: zeros(c),
                dts: zeros(c),
                last_trigger: zeros64(c),
                frame_number: 0,
                sample_rate: rate as int,
            },
        ),
    )
}

pub open spec fn impulse_op(c: nat, rate: nat) -> OpView {
    OpView::Connect(
        MView::Impulse(
            ImpulseView {
                frame: 0,
                last_trigger: zeros(c),
                output: zeros(c),
                sample_rate: rate as int,
                trigger_frame: zeros64(c),
            },
        ),
    )
}

pub open spec fn sh_op(c: nat) -> OpView {
    OpView::Connect(MView::SampleAndHold(SampleAndHoldView { output: zeros(c) }))
}

pub open spec fn pan1_op(c: nat) -> OpView {
    OpView::Connect(MView::Pan1(Pan1View { output: zeros(c) }))
}

pub open spec fn pan2_op(c: nat) -> OpView {
    OpView::Connect(MView::Pan2(Pan2View { output: zeros(c) }))
}

pub open spec fn zip_op(c: nat) -> OpView {
    OpView::Connect(MView::Zip(ZipView { channels: c, output: zeros(c) }))
}

pub open spec fn delay_op(c: nat, rate: nat, md: int) -> OpView {
    OpView::Connect(
        MView::Delay(
            DelayView {
                buffers: zero_rings(c, delay_frames(rate as int, md) as nat),
                ring_len: delay_frames(rate as int, md),
                sample_rate: rate as int,
                output: zeros(c),
            },
        ),
    )
}

pub open spec fn feedback_op(c: nat, rate: nat, md: int) -> OpView {
    OpView::Connect(
        MView::Feedback(
            FeedbackView {
                delay: DelayView {
                    buffers: zero_rings(c, delay_frames(rate as int, md) as nat),
                    ring_len: delay_frames(rate as int, md),
                    sample_rate: rate as int,
                    output: zeros(c),
                },
                delay_input: zeros(2 * c),
                output: zeros(c),
            },
        ),
    )
}

pub open spec fn conv_op(c: nat, w: int) -> OpView {
    let cw = if w < 1 {
        1int
    } else {
        w
    };
    OpView::Connect(
        MView::Convolution(
            ConvolutionView {
                windows: zero_rings(c, cw as nat),
                window_size: cw,
                output: zeros(c),
            },
        ),
    )
}

pub open spec fn convm_op(c: nat, w: int) -> OpView {
    let cw = if w < 1 {
        1int
    } else if w > 254 {
        254int
    } else {
        w
    };
    OpView::Connect(
        MView::ConvolutionM(
            ConvolutionMView {
                windows: zero_rings(c, cw as nat),
                window_size: cw,
                output: zeros(c),
            },
        ),
    )
}

/// A noise token: the seed is drawn from entropy, so only the output
/// shape is pinned.
pub open spec fn is_noise_tok(tok: Seq<u8>) -> bool {
    tok == sb("n") || tok == sb("noise")
}

/// A digit string read as an unsigned integer no larger than `cap`.
pub open spec fn parse_uint(s: Seq<u8>, cap: int) -> Option<int> {
    if all_digits(s) && s.len() > 0 && digits_val(s) <= cap {
        Some(digits_val(s))
    } else {
        None
    }
}

/// How a token fails, if it does.
pub enum TokErr {
    Unknown,
    NoParam,
    BadParam,
}

/// The default maximum delay, sixty seconds.
pub const DELAY_DEFAULT: i64 = 257698037760;

/// The operation a plain (unparameterized, non-random) token denotes.
#[verifier::opaque]
pub open spec fn plain_op(tok: Seq<u8>, c: nat, rate: nat) -> Option<OpView> {
    if tok == sb("*") {
        Some(fn2_op(c, BinaryFn::Mul))
    } else if tok == sb("+") {
        Some(fn2_op(c, BinaryFn::Add))
    } else if tok == sb("-") {
        Some(fn2_op(c, BinaryFn::Sub))
    } else if tok == sb("/") {
        Some(fn2_op(c, BinaryFn::Div))
    } else if tok == sb("\\") {
        Some(fn1_op(c, UnaryFn::Recip))
    } else if tok == sb("^") || tok == sb("pow") {
        Some(fn2_op(c, BinaryFn::Pow))
    } else if tok == sb("cheb2") {
        Some(fn1_op(c, UnaryFn::Cheb2))
    } else if tok == sb("cheb3") {
        Some(fn1_op(c, UnaryFn::Cheb3))
    } else if tok == sb("cheb4") {
        Some(fn1_op(c, UnaryFn::Cheb4))
    } else if tok == sb("cheb5") {
        Some(fn1_op(c, UnaryFn::Cheb5))
    } else if tok == sb("cheb6") {
        Some(fn1_op(c, UnaryFn::Cheb6))
    } else if tok == sb("cos") {
        Some(fn1_op(c, UnaryFn::Cos))
    } else if tok == sb("dm") || tok == sb("dmetro") {
        Some(dmetro_op(c, rate))
    } else if tok == sb("dmh") || tok == sb("dmetro_hold") {
        Some(dmetrohold_op(c, rate))
    } else if tok == sb("h") || tok == sb("bqhpf") {
        Some(biquad_op(c, rate, BiQuadKind::HighPass))
    } else if tok == sb("hpf") {
        Some(hpf_op(c, rate))
    } else if tok == sb("impulse") {
        Some(impulse_op(c, rate))
    } else if tok == sb("in") || tok == sb("input") {
        Some(input_op(c))
    } else if tok == sb("l") || tok == sb("bqlpf") {
        Some(biquad_op(c, rate, BiQuadKind::LowPass))
    } else if tok == sb("lpf") {
        Some(lpf_op(c, rate))
    } else if tok == sb("m") || tok == sb("metro") {
        Some(metro_op(c, rate))
    } else if tok == sb("m2f") || tok == sb("midi2freq") {
        Some(fn1_op(c, UnaryFn::Midi2Freq))
    } else if tok == sb("mh") || tok == sb("metro_hold") {
        Some(metrohold_op(c, rate))
    } else if tok == sb("p") || tok == sb("pulse") {
        Some(pulse_op(c, rate))
    } else if tok == sb("pan1") {
        Some(pan1_op(c))
    } else if tok == sb("pan2") {
        Some(pan2_op(c))
    } else if tok == sb("q") || tok == sb("quantize") {
        Some(fn2_op(c, BinaryFn::Quantize))
    } else if tok == sb("r") || tok == sb("range") {
        Some(fn3_op(c, TernaryFn::Range))
    } else if tok == sb("round") {
        Some(fn1_op(c, UnaryFn::Round))
    } else if tok == sb("s") {
        Some(osc_op(c, rate, UnaryFn::Sine))
    } else if tok == sb("saw") {
        Some(phasor0_op(c, rate))
    } else if tok == sb("sh") || tok == sb("sample&hold") {
        Some(sh_op(c))
    } else if tok == sb("sin") {
        Some(fn1_op(c, UnaryFn::Sin))
    } else if tok == sb("sine") {
        Some(oscphase_op(c, rate, UnaryFn::Sine))
    } else if tok == sb("t") {
        Some(osc_op(c, rate, UnaryFn::Triangle))
    } else if tok == sb("tri") {
        Some(oscphase_op(c, rate, UnaryFn::Triangle))
    } else if tok == sb("unit") {
        Some(fn1_op(c, UnaryFn::Unit))
    } else if tok == sb("w") {
        Some(phasor_op(c, rate))
    } else if tok == sb("zip") {
        Some(zip_op(c))
    } else if tok == sb("dup") {
        Some(OpView::Dup)
    } else if tok == sb("swap") {
        Some(OpView::Swap)
    } else if tok == sb("rot") {
        Some(OpView::Rot)
    } else if tok == sb("pop") {
        Some(OpView::Pop)
    } else {
        None
    }
}


/// The failure of a token, or nothing when it denotes an operation.
#[verifier::opaque]
pub open spec fn tok_err(tok: Seq<u8>, c: nat, rate: nat) -> Option<TokErr> {
    if plain_op(tok, c, rate) is Some || is_noise_tok(tok) || literal_val(tok) is Some {
        None::<TokErr>
    } else {
        let cp = find_byte(tok, 58, 0);
        let name = tok.take(cp);
        let with_arg = cp < tok.len();
        let arg = tok.subrange(cp + 1, tok.len() as int);
        if name == sb("delay") || name == sb("fb") || name == sb("feedback") {
            if !with_arg {
                None::<TokErr>
            } else if literal_val(arg) is Some {
                None::<TokErr>
            } else {
                Some(TokErr::BadParam)
            }
        } else if name == sb("conv") || name == sb("convm") {
            if !with_arg {
                Some(TokErr::NoParam)
            } else if parse_uint(arg, usize::MAX as int) is Some {
                None::<TokErr>
            } else {
                Some(TokErr::BadParam)
            }
        } else if name == sb("param") {
            if !with_arg {
                Some(TokErr::NoParam)
            } else if parse_uint(arg, 255) is Some {
                None::<TokErr>
            } else {
                Some(TokErr::BadParam)
            }
        } else {
            Some(TokErr::Unknown)
        }
    }
}

/// What operation a good token denotes; for a noise token only the
/// output shape is pinned, since the seed comes from entropy.
#[verifier::opaque]
pub open spec fn tok_matches(tok: Seq<u8>, c: nat, rate: nat, op: OpView) -> bool {
    if plain_op(tok, c, rate) is Some {
        op == plain_op(tok, c, rate)->Some_0
    } else if is_noise_tok(tok) {
        op matches OpView::Connect(MView::WhiteNoise(w)) && w.output == zeros(c)
    } else if literal_val(tok) is Some {
        op == const_op(c, literal_val(tok)->Some_0 as Sample)
    } else {
        let cp = find_byte(tok, 58, 0);
        let name = tok.take(cp);
        let with_arg = cp < tok.len();
        let arg = tok.subrange(cp + 1, tok.len() as int);
        if name == sb("delay") {
            if !with_arg {
                op == delay_op(c, rate, DELAY_DEFAULT as int)
            } else {
                literal_val(arg) matches Some(v) && op == delay_op(c, rate, v)
            }
        } else if name == sb("fb") || name == sb("feedback") {
            if !with_arg {
                op == feedback_op(c, rate, DELAY_DEFAULT as int)
            } else {
                literal_val(arg) matches Some(v) && op == feedback_op(c, rate, v)
            }
        } else if name == sb("conv") {
            with_arg && parse_uint(arg, usize::MAX as int) is Some && op == conv_op(
                c,
                parse_uint(arg, usize::MAX as int)->Some_0,
            )
        } else if name == sb("convm") {
            with_arg && parse_uint(arg, usize::MAX as int) is Some && op == convm_op(
                c,
                parse_uint(arg, usize::MAX as int)->Some_0,
            )
        } else if name == sb("param") {
            with_arg && parse_uint(arg, 255) is Some && op == param_op(
                c,
                parse_uint(arg, 255)->Some_0 as nat,
            )
        } else {
            false
        }
    }
}

pub open spec fn param_op(c: nat, k: nat) -> OpView {
    OpView::Connect(MView::Parameter(ParameterView { index: k, output: zeros(c) }))
}

/// Index of the first failing token, or the count when all are good.
pub open spec fn first_err(toks: Seq<Seq<u8>>, c: nat, rate: nat, i: int) -> int
    decreases toks.len() - i when 0 <= i <= toks.len()
{
    if i >= toks.len() {
        toks.len() as int
    } else if tok_err(toks[i], c, rate) is Some {
        i
    } else {
        first_err(toks, c, rate, i + 1)
    }
}

/// A parsing failure, carrying the offending token's bytes.
#[derive(Debug, PartialEq, Eq)]
pub enum ParseError {
    UnknownToken(Vec<u8>),
    NotEnoughParameters(Vec<u8>),
    WrongParameterType(Vec<u8>),
}

/// Any failure of the front-end: a bad token, or a compiler stack that
/// ran out of operands.
#[derive(Debug, PartialEq, Eq)]
pub enum Error {
    ParseError(ParseError),
    StackError(crate::stack::Error),
}

/// Whether two byte strings are equal.
fn tok_is(t: &[u8], pat: &str) -> (r: bool)
    ensures
        r == (t@ == pat.spec_bytes()),
{
    let pb = pat.as_bytes();
    if t.len() != pb.len() {
        proof {
            assert(t@.len() != pat.spec_bytes().len());
        }
        return false;
    }
    let n = t.len();
    let mut i: usize = 0;
    while i < n
        invariant
            i <= n,
            n == t@.len(),
            pb@ == pat.spec_bytes(),
            n == pb@.len(),
            forall|j: int| 0 <= j < i ==> t@[j] == pb@[j],
        decreases n - i,
    {
        if t[i] != pb[i] {
            proof {
                assert(t@[i as int] != pat.spec_bytes()[i as int]);
            }
            return false;
        }
        i = i + 1;
    }
    proof {
        assert(t@ =~= pat.spec_bytes());
    }
    true
}

/// A digit string as an unsigned integer, or nothing when it is not
/// all digits or exceeds `cap`.
fn parse_uint_exec(s: &[u8], cap: u64) -> (r: Option<u64>)
    ensures
        match r {
            Some(v) => parse_uint(s@, cap as int) == Some(v as int),
            None => parse_uint(s@, cap as int) is None,
        },
{
    let n = s.len();
    if n == 0 {
        return None;
    }
    let mut acc: u128 = 0;
    let mut big: bool = false;
    let mut j: usize = 0;
    while j < n
        invariant
            0 <= j <= n,
            n == s@.len(),
            forall|t: int| 0 <= t < j ==> is_digit(#[trigger] s@[t]),
            !big ==> acc == digits_val(s@.take(j as int)) && acc <= cap as u128,
            big ==> digits_val(s@.take(j as int)) > cap,
            cap <= u64::MAX,
        decreases n - j,
    {
        let b = s[j];
        if b < 48 || b > 57 {
            proof {
                assert(!is_digit(s@[j as int]));
            }
            return None;
        }
        proof {
            assert(s@.take(j as int + 1).drop_last() =~= s@.take(j as int));
            assert(s@.take(j as int + 1).last() == s@[j as int]);
            assert(all_digits(s@.take(j as int))) by {
                assert(forall|t: int|
                    0 <= t < j ==> is_digit(#[trigger] s@.take(j as int)[t]) == is_digit(s@[t]));
            }
            lemma_digits_val_nonneg(s@.take(j as int));
        }
        if big {
            proof {
                assert(digits_val(s@.take(j as int)) * 10 >= digits_val(s@.take(j as int)))
                    by (nonlinear_arith)
                    requires
                        digits_val(s@.take(j as int)) >= 0,
                ;
            }
        } else {
            acc = acc * 10 + ((b - 48) as u128);
            if acc > cap as u128 {
                big = true;
            }
        }
        j = j + 1;
    }
    proof {
        assert(s@.take(n as int) =~= s@);
        assert(all_digits(s@)) by {
            assert(forall|t: int| 0 <= t < n ==> is_digit(#[trigger] s@[t]));
        }
    }
    if big {
        None
    } else {
        Some(acc as u64)
    }
}

/// Map one token to its operation, or to the error it raises.
#[verifier::rlimit(100)]
fn token_to_op(tok: &Vec<u8>, channels: u8, sample_rate: u32) -> (r: Result<Op, ParseError>)
    ensures
        match r {
            Ok(op) => {
                &&& tok_err(tok@, channels as nat, sample_rate as nat) is None
                &&& tok_matches(tok@, channels as nat, sample_rate as nat, op@)
                &&& (op@ matches OpView::Connect(m) ==> m.wf_spec() && m.channels_spec()
                    == channels as nat)
            },
            Err(pe) => match pe {
                ParseError::UnknownToken(b) => tok_err(tok@, channels as nat, sample_rate as nat)
                    == Some(TokErr::Unknown) && b@ == tok@,
                ParseError::NotEnoughParameters(b) => tok_err(
                    tok@,
                    channels as nat,
                    sample_rate as nat,
                ) == Some(TokErr::NoParam) && b@ == tok@,
                ParseError::WrongParameterType(b) => tok_err(
                    tok@,
                    channels as nat,
                    sample_rate as nat,
                ) == Some(TokErr::BadParam) && b@ == tok@,
            },
        },
{
    let ghost c = channels as nat;
    let ghost rate = sample_rate as nat;
    proof {
        reveal(plain_op);
        reveal(tok_err);
        reveal(tok_matches);
    }
    if tok_is(tok.as_slice(), "*") {
        let op = Op::Connect(ModuleKind::Fn2(Fn2::new(channels, BinaryFn::Mul)));
        proof {
            assert(op@ =~~= plain_op(tok@, c, rate)->Some_0);
        }
        Ok(op)
    } else if tok_is(tok.as_slice(), "+") {
        let op = Op::Connect(ModuleKind::Fn2(Fn2::new(channels, BinaryFn::Add)));
        proof {
            assert(op@ =~~= plain_op(tok@, c, rate)->Some_0);
        }
        Ok(op)
    } else if tok_is(tok.as_slice(), "-") {
        let op = Op::Connect(ModuleKind::Fn2(Fn2::new(channels, BinaryFn::Sub)));
        proof {
            assert(op@ =~~= plain_op(tok@, c, rate)->Some_0);
        }
        Ok(op)
    } else if tok_is(tok.as_slice(), "/") {
        let op = Op::Connect(ModuleKind::Fn2(Fn2::new(channels, BinaryFn::Div)));
        proof {
            assert(op@ =~~= plain_op(tok@, c, rate)->Some_0);
        }
        Ok(op)
    } else if tok_is(tok.as_slice(), "\\") {
        let op = Op::Connect(ModuleKind::Fn1(Fn1::new(channels, UnaryFn::Recip)));
        proof {
            assert(op@ =~~= plain_op(tok@, c, rate)->Some_0);
        }
        Ok(op)
    } else if tok_is(tok.as_slice(), "^") || tok_is(tok.as_slice(), "pow") {
        let op = Op::Connect(ModuleKind::Fn2(Fn2::new(channels, BinaryFn::Pow)));
        proof {
            assert(op@ =~~= plain_op(tok@, c, rate)->Some_0);
        }
        Ok(op)
    } else if tok_is(tok.as_slice(), "cheb2") {
        let op = Op::Connect(ModuleKind::Fn1(Fn1::new(channels, UnaryFn::Cheb2)));
        proof {
            assert(op@ =~~= plain_op(tok@, c, rate)->Some_0);
        }
        Ok(op)
    } else if tok_is(tok.as_slice(), "cheb3") {
        let op = Op::Connect(ModuleKind::Fn1(Fn1::new(channels, UnaryFn::Cheb3)));
        proof {
            assert(op@ =~~= plain_op(tok@, c, rate)->Some_0);
        }
        Ok(op)
    } else if tok_is(tok.as_slice(), "cheb4") {
        let op = Op::Connect(ModuleKind::Fn1(Fn1::new(channels, UnaryFn::Cheb4)));
        proof {
            assert(op@ =~~= plain_op(tok@, c, rate)->Some_0);
        }
        Ok(op)
    } else if tok_is(tok.as_slice(), "cheb5") {
        let op = Op::Connect(ModuleKind::Fn1(Fn1::new(channels, UnaryFn::Cheb5)));
        proof {
            assert(op@ =~~= plain_op(tok@, c, rate)->Some_0);
        }
        Ok(op)
    } else if tok_is(tok.as_slice(), "cheb6") {
        let op = Op::Connect(ModuleKind::Fn1(Fn1::new(channels, UnaryFn::Cheb6)));
        proof {
            assert(op@ =~~= plain_op(tok@, c, rate)->Some_0);
        }
        Ok(op)
    } else if tok_is(tok.as_slice(), "cos") {
        let op = Op::Connect(ModuleKind::Fn1(Fn1::new(channels, UnaryFn::Cos)));
        proof {
            assert(op@ =~~= plain_op(tok@, c, rate)->Some_0);
        }
        Ok(op)
    } else if tok_is(tok.as_slice(), "dm") || tok_is(tok.as_slice(), "dmetro") {
        let op = Op::Connect(ModuleKind::DMetro(DMetro::new(channels, sample_rate)));
        proof {
            assert(op@ =~~= plain_op(tok@, c, rate)->Some_0);
        }
        Ok(op)
    } else if tok_is(tok.as_slice(), "dmh") || tok_is(tok.as_slice(), "dmetro_hold") {
        let op = Op::Connect(ModuleKind::DMetroHold(DMetroHold::new(channels, sample_rate)));
        proof {
            assert(op@ =~~= plain_op(tok@, c, rate)->Some_0);
        }
        Ok(op)
    } else if tok_is(tok.as_slice(), "h") || tok_is(tok.as_slice(), "bqhpf") {
        let op = Op::Connect(ModuleKind::BiQuad(BiQuad::new(channels, sample_rate, BiQuadKind::HighPass)));
        proof {
            assert(op@ =~~= plain_op(tok@, c, rate)->Some_0);
        }
        Ok(op)
    } else if tok_is(tok.as_slice(), "hpf") {
        let op = Op::Connect(ModuleKind::HPF(HPF::new(channels, sample_rate)));
        proof {
            assert(op@ =~~= plain_op(tok@, c, rate)->Some_0);
        }
        Ok(op)
    } else if tok_is(tok.as_slice(), "impulse") {
        let op = Op::Connect(ModuleKind::Impulse(Impulse::new(channels, sample_rate)));
        proof {
            assert(op@ =~~= plain_op(tok@, c, rate)->Some_0);
        }
        Ok(op)
    } else if tok_is(tok.as_slice(), "in") || tok_is(tok.as_slice(), "input") {
        let op = Op::Connect(ModuleKind::Input(Input::new(channels)));
        proof {
            assert(op@ =~~= plain_op(tok@, c, rate)->Some_0);
        }
        Ok(op)
    } else if tok_is(tok.as_slice(), "l") || tok_is(tok.as_slice(), "bqlpf") {
        let op = Op::Connect(ModuleKind::BiQuad(BiQuad::new(channels, sample_rate, BiQuadKind::LowPass)));
        proof {
            assert(op@ =~~= plain_op(tok@, c, rate)->Some_0);
        }
        Ok(op)
    } else if tok_is(tok.as_slice(), "lpf") {
        let op = Op::Connect(ModuleKind::LPF(LPF::new(channels, sample_rate)));
        proof {
            assert(op@ =~~= plain_op(tok@, c, rate)->Some_0);
        }
        Ok(op)
    } else if tok_is(tok.as_slice(), "m") || tok_is(tok.as_slice(), "metro") {
        let op = Op::Connect(ModuleKind::Metro(Metro::new(channels, sample_rate)));
        proof {
            assert(op@ =~~= plain_op(tok@, c, rate)->Some_0);
        }
        Ok(op)
    } else if tok_is(tok.as_slice(), "m2f") || tok_is(tok.as_slice(), "midi2freq") {
        let op = Op::Connect(ModuleKind::Fn1(Fn1::new(channels, UnaryFn::Midi2Freq)));
        proof {
            assert(op@ =~~= plain_op(tok@, c, rate)->Some_0);
        }
        Ok(op)
    } else if tok_is(tok.as_slice(), "mh") || tok_is(tok.as_slice(), "metro_hold") {
        let op = Op::Connect(ModuleKind::MetroHold(MetroHold::new(channels, sample_rate)));
        proof {
            assert(op@ =~~= plain_op(tok@, c, rate)->Some_0);
        }
        Ok(op)
    } else if tok_is(tok.as_slice(), "p") || tok_is(tok.as_slice(), "pulse") {
        let op = Op::Connect(ModuleKind::Pulse(Pulse::new(channels, sample_rate)));
        proof {
            assert(op@ =~~= plain_op(tok@, c, rate)->Some_0);
        }
        Ok(op)
    } else if tok_is(tok.as_slice(), "pan1") {
        let op = Op::Connect(ModuleKind::Pan1(Pan1::new(channels)));
        proof {
            assert(op@ =~~= plain_op(tok@, c, rate)->Some_0);
        }
        Ok(op)
    } else if tok_is(tok.as_slice(), "pan2") {
        let op = Op::Connect(ModuleKind::Pan2(Pan2::new(channels)));
        proof {
            assert(op@ =~~= plain_op(tok@, c, rate)->Some_0);
        }
        Ok(op)
    } else if tok_is(tok.as_slice(), "q") || tok_is(tok.as_slice(), "quantize") {
        let op = Op::Connect(ModuleKind::Fn2(Fn2::new(channels, BinaryFn::Quantize)));
        proof {
            assert(op@ =~~= plain_op(tok@, c, rate)->Some_0);
        }
        Ok(op)
    } else if tok_is(tok.as_slice(), "r") || tok_is(tok.as_slice(), "range") {
        let op = Op::Connect(ModuleKind::Fn3(Fn3::new(channels, TernaryFn::Range)));
        proof {
            assert(op@ =~~= plain_op(tok@, c, rate)->Some_0);
        }
        Ok(op)
    } else if tok_is(tok.as_slice(), "round") {
        let op = Op::Connect(ModuleKind::Fn1(Fn1::new(channels, UnaryFn::Round)));
        proof {
            assert(op@ =~~= plain_op(tok@, c, rate)->Some_0);
        }
        Ok(op)
    } else if tok_is(tok.as_slice(), "s") {
        let op = Op::Connect(ModuleKind::Osc(Osc::new(channels, sample_rate, UnaryFn::Sine)));
        proof {
            assert(op@ =~~= plain_op(tok@, c, rate)->Some_0);
        }
        Ok(op)
    } else if tok_is(tok.as_slice(), "saw") {
        let op = Op::Connect(ModuleKind::Phasor0(Phasor0::new(channels, sample_rate)));
        proof {
            assert(op@ =~~= plain_op(tok@, c, rate)->Some_0);
        }
        Ok(op)
    } else if tok_is(tok.as_slice(), "sh") || tok_is(tok.as_slice(), "sample&hold") {
        let op = Op::Connect(ModuleKind::SampleAndHold(SampleAndHold::new(channels)));
        proof {
            assert(op@ =~~= plain_op(tok@, c, rate)->Some_0);
        }
        Ok(op)
    } else if tok_is(tok.as_slice(), "sin") {
        let op = Op::Connect(ModuleKind::Fn1(Fn1::new(channels, UnaryFn::Sin)));
        proof {
            assert(op@ =~~= plain_op(tok@, c, rate)->Some_0);
        }
        Ok(op)
    } else if tok_is(tok.as_slice(), "sine") {
        let op = Op::Connect(ModuleKind::OscPhase(OscPhase::new(channels, sample_rate, UnaryFn::Sine)));
        proof {
            assert(op@ =~~= plain_op(tok@, c, rate)->Some_0);
        }
        Ok(op)
    } else if tok_is(tok.as_slice(), "t") {
        let op = Op::Connect(ModuleKind::Osc(Osc::new(channels, sample_rate, UnaryFn::Triangle)));
        proof {
            assert(op@ =~~= plain_op(tok@, c, rate)->Some_0);
        }
        Ok(op)
    } else if tok_is(tok.as_slice(), "tri") {
        let op = Op::Connect(ModuleKind::OscPhase(OscPhase::new(channels, sample_rate, UnaryFn::Triangle)));
        proof {
            assert(op@ =~~= plain_op(tok@, c, rate)->Some_0);
        }
        Ok(op)
    } else if tok_is(tok.as_slice(), "unit") {
        let op = Op::Connect(ModuleKind::Fn1(Fn1::new(channels, UnaryFn::Unit)));
        proof {
            assert(op@ =~~= plain_op(tok@, c, rate)->Some_0);
        }
        Ok(op)
    } else if tok_is(tok.as_slice(), "w") {
        let op = Op::Connect(ModuleKind::Phasor(Phasor::new(channels, sample_rate)));
        proof {
            assert(op@ =~~= plain_op(tok@, c, rate)->Some_0);
        }
        Ok(op)
    } else if tok_is(tok.as_slice(), "zip") {
        let op = Op::Connect(ModuleKind::Zip(Zip::new(channels)));
        proof {
            assert(op@ =~~= plain_op(tok@, c, rate)->Some_0);
        }
        Ok(op)
    } else if tok_is(tok.as_slice(), "dup") {
        Ok(Op::Dup)
    } else if tok_is(tok.as_slice(), "swap") {
        Ok(Op::Swap)
    } else if tok_is(tok.as_slice(), "rot") {
        Ok(Op::Rot)
    } else if tok_is(tok.as_slice(), "pop") {
        Ok(Op::Pop)
    } else if tok_is(tok.as_slice(), "n") || tok_is(tok.as_slice(), "noise") {
        let op = Op::Connect(ModuleKind::WhiteNoise(WhiteNoise::new(channels)));
        proof {
            assert(op@ matches OpView::Connect(MView::WhiteNoise(w)) && w.output =~= zeros(c));
        }
        Ok(op)
    } else if let Some(v) = parse_literal(tok.as_slice()) {
        let op = Op::Connect(ModuleKind::Constant(Constant::new(channels, v)));
        proof {
            assert(op@ =~~= const_op(c, v));
        }
        Ok(op)
    } else {
        // a parameterized token: name[:argument]
        let n = tok.len();
        let mut cp: usize = 0;
        while cp < n && tok.as_slice()[cp] != 58
            invariant
                0 <= cp <= n,
                n == tok@.len(),
                find_byte(tok@, 58, 0) == find_byte(tok@, 58, cp as int),
            decreases n - cp,
        {
            cp = cp + 1;
        }
        proof {
            assert(find_byte(tok@, 58, 0) == cp);
        }
        let name: &[u8] = &tok.as_slice()[0..cp];
        let with_arg = cp < n;
        proof {
            assert(name@ =~= tok@.take(cp as int));
        }
        let arg: &[u8] = if with_arg {
            &tok.as_slice()[cp + 1..n]
        } else {
            &tok.as_slice()[0..0]
        };
        proof {
            if with_arg {
                assert(arg@ =~= tok@.subrange(cp as int + 1, tok@.len() as int));
            }
        }
        if tok_is(name, "delay") {
            if !with_arg {
                let op = Op::Connect(ModuleKind::Delay(Delay::new(
                    channels,
                    sample_rate,
                    DELAY_DEFAULT,
                )));
                proof {
                    assert(op@ =~~= delay_op(c, rate, DELAY_DEFAULT as int));
                }
                Ok(op)
            } else {
                match parse_literal(arg) {
                    Some(md) => {
                        let op = Op::Connect(ModuleKind::Delay(Delay::new(
                            channels,
                            sample_rate,
                            md,
                        )));
                        proof {
                            assert(op@ =~~= delay_op(c, rate, md as int));
                        }
                        Ok(op)
                    },
                    None => Err(ParseError::WrongParameterType(clone_bytes(tok))),
                }
            }
        } else if tok_is(name, "fb") || tok_is(name, "feedback") {
            if !with_arg {
                let op = Op::Connect(ModuleKind::Feedback(Feedback::new(
                    channels,
                    sample_rate,
                    DELAY_DEFAULT,
                )));
                proof {
                    assert(op@ =~~= feedback_op(c, rate, DELAY_DEFAULT as int));
                }
                Ok(op)
            } else {
                match parse_literal(arg) {
                    Some(md) => {
                        let op = Op::Connect(ModuleKind::Feedback(Feedback::new(
                            channels,
                            sample_rate,
                            md,
                        )));
                        proof {
                            assert(op@ =~~= feedback_op(c, rate, md as int));
                        }
                        Ok(op)
                    },
                    None => Err(ParseError::WrongParameterType(clone_bytes(tok))),
                }
            }
        } else if tok_is(name, "conv") {
            if !with_arg {
                Err(ParseError::NotEnoughParameters(clone_bytes(tok)))
            } else {
                match parse_uint_exec(arg, usize::MAX as u64) {
                    Some(w) => {
                        let op = Op::Connect(ModuleKind::Convolution(Convolution::new(
                            channels,
                            w as usize,
                        )));
                        proof {
                            assert(op@ =~~= conv_op(c, w as int));
                        }
                        Ok(op)
                    },
                    None => Err(ParseError::WrongParameterType(clone_bytes(tok))),
                }
            }
        } else if tok_is(name, "convm") {
            if !with_arg {
                Err(ParseError::NotEnoughParameters(clone_bytes(tok)))
            } else {
                match parse_uint_exec(arg, usize::MAX as u64) {
                    Some(w) => {
                        let op = Op::Connect(ModuleKind::ConvolutionM(ConvolutionM::new(
                            channels,
                            w as usize,
                        )));
                        proof {
                            assert(op@ =~~= convm_op(c, w as int));
                        }
                        Ok(op)
                    },
                    None => Err(ParseError::WrongParameterType(clone_bytes(tok))),
                }
            }
        } else if tok_is(name, "param") {
            if !with_arg {
                Err(ParseError::NotEnoughParameters(clone_bytes(tok)))
            } else {
                match parse_uint_exec(arg, 255) {
                    Some(k) => {
                        let op = Op::Connect(ModuleKind::Parameter(Parameter::new(
                            channels,
                            k as u8,
                        )));
                        proof {
                            assert(op@ =~~= param_op(c, k as nat));
                        }
                        Ok(op)
                    },
                    None => Err(ParseError::WrongParameterType(clone_bytes(tok))),
                }
            }
        } else {
            Err(ParseError::UnknownToken(clone_bytes(tok)))
        }
    }
}

/// Copy a token's bytes.
fn clone_bytes(t: &Vec<u8>) -> (r: Vec<u8>)
    ensures
        r@ == t@,
{
    let mut out: Vec<u8> = Vec::new();
    let mut i: usize = 0;
    while i < t.len()
        invariant
            i <= t@.len(),
            out@ == t@.take(i as int),
        decreases t@.len() - i,
    {
        out.push(t[i]);
        proof {
            assert(out@ =~= t@.take(i as int + 1));
        }
        i = i + 1;
    }
    proof {
        assert(out@ =~= t@);
    }
    out
}

proof fn lemma_first_err_stops(toks: Seq<Seq<u8>>, c: nat, rate: nat, t: int)
    requires
        0 <= t < toks.len(),
        forall|q: int| 0 <= q < t ==> tok_err(#[trigger] toks[q], c, rate) is None,
        tok_err(toks[t], c, rate) is Some,
    ensures
        first_err(toks, c, rate, 0) == t,
{
    lemma_first_err_from(toks, c, rate, 0, t);
}

proof fn lemma_first_err_from(toks: Seq<Seq<u8>>, c: nat, rate: nat, i: int, t: int)
    requires
        0 <= i <= t < toks.len(),
        forall|q: int| i <= q < t ==> tok_err(#[trigger] toks[q], c, rate) is None,
        tok_err(toks[t], c, rate) is Some,
    ensures
        first_err(toks, c, rate, i) == t,
    decreases t - i,
{
    if i < t {
        lemma_first_err_from(toks, c, rate, i + 1, t);
    }
}

proof fn lemma_first_err_none(toks: Seq<Seq<u8>>, c: nat, rate: nat, i: int)
    requires
        0 <= i <= toks.len(),
        forall|q: int| i <= q < toks.len() ==> tok_err(#[trigger] toks[q], c, rate) is None,
    ensures
        first_err(toks, c, rate, i) == toks.len(),
    decreases toks.len() - i,
{
    if i < toks.len() {
        lemma_first_err_none(toks, c, rate, i + 1);
    }
}

/// Tokenize a program and map every token to an operation, or report
/// the first bad token.
#[verifier::rlimit(100)]
pub fn parse_ops(s: &str, channels: u8, sample_rate: u32) -> (r: Result<Vec<Op>, ParseError>)
    ensures
        ({
            let toks = tokens(s.spec_bytes());
            let c = channels as nat;
            let rate = sample_rate as nat;
            match r {
                Ok(ops) => {
                    &&& first_err(toks, c, rate, 0) == toks.len()
                    &&& ops@.len() == toks.len()
                    &&& forall|t: int|
                        0 <= t < toks.len() ==> tok_matches(
                            toks[t],
                            c,
                            rate,
                            (#[trigger] ops@[t])@,
                        )
                    &&& forall|t: int|
                        0 <= t < ops@.len() ==> ((#[trigger] ops@[t])@ matches OpView::Connect(m)
                            ==> m.wf_spec() && m.channels_spec() == c)
                },
                Err(pe) => {
                    let fb = first_err(toks, c, rate, 0);
                    &&& fb < toks.len()
                    &&& match pe {
                        ParseError::UnknownToken(b) => tok_err(toks[fb], c, rate) == Some(
                            TokErr::Unknown,
                        ) && b@ == toks[fb],
                        ParseError::NotEnoughParameters(b) => tok_err(toks[fb], c, rate) == Some(
                            TokErr::NoParam,
                        ) && b@ == toks[fb],
                        ParseError::WrongParameterType(b) => tok_err(toks[fb], c, rate) == Some(
                            TokErr::BadParam,
                        ) && b@ == toks[fb],
                    }
                },
            }
        }),
{
    let ghost c = channels as nat;
    let ghost rate = sample_rate as nat;
    let bytes = s.as_bytes();
    let toks = tokenize(bytes);
    let ghost toksv = tokens(s.spec_bytes());
    proof {
        assert(toksv == toks_view(toks@));
    }
    let mut ops: Vec<Op> = Vec::new();
    let count = toks.len();
    let mut t: usize = 0;
    while t < count
        invariant
            t <= count,
            count == toks@.len(),
            toksv == toks_view(toks@),
            toksv == tokens(s.spec_bytes()),
            toksv.len() == count,
            c == channels as nat,
            rate == sample_rate as nat,
            ops@.len() == t,
            forall|q: int| 0 <= q < t ==> tok_err(#[trigger] toksv[q], c, rate) is None,
            forall|q: int|
                0 <= q < t ==> tok_matches(toksv[q], c, rate, (#[trigger] ops@[q])@),
            forall|q: int|
                0 <= q < t ==> ((#[trigger] ops@[q])@ matches OpView::Connect(m) ==> m.wf_spec()
                    && m.channels_spec() == c),
        decreases count - t,
    {
        let tk = &toks[t];
        proof {
            assert(tk@ == toksv[t as int]);
        }
        match token_to_op(tk, channels, sample_rate) {
            Ok(op) => {
                ops.push(op);
            },
            Err(pe) => {
                proof {
                    lemma_first_err_stops(toksv, c, rate, t as int);
                }
                return Err(pe);
            },
        }
        t = t + 1;
    }
    proof {
        lemma_first_err_none(toksv, c, rate, 0);
    }
    Ok(ops)
}

/// Parse a program and compile it into a graph: the whole front-end.
#[verifier::rlimit(100)]
pub fn parse_graph(s: &str, channels: u8, sample_rate: u32, inputs: u8) -> (r: Result<
    AudioGraph,
    Error,
>)
    ensures
        match r {
            Ok(g) => {
                &&& g.wf()
                &&& g.order_fresh()
                &&& g.channels == channels
                &&& g.inputs == inputs
                &&& exists|ov: Seq<OpView>|
                    {
                        &&& (#[trigger] crate::stack::build_spec(ov, ov.len() as int)) matches Ok(
                            st,
                        ) && crate::graph::mviews(g.nodes@) == st.nodes && crate::graph::srcs_view(
                            g.sources@,
                        ) == st.srcs && crate::stack::state_ok(st)
                        &&& ov.len() == tokens(s.spec_bytes()).len()
                        &&& forall|t: int|
                            0 <= t < ov.len() ==> tok_matches(
                                tokens(s.spec_bytes())[t],
                                channels as nat,
                                sample_rate as nat,
                                #[trigger] ov[t],
                            )
                    }
                &&& first_err(
                    tokens(s.spec_bytes()),
                    channels as nat,
                    sample_rate as nat,
                    0,
                ) == tokens(s.spec_bytes()).len()
            },
            Err(e) => match e {
                // the first bad token aborts the whole front-end, exactly
                // as parse_ops reports it
                Error::ParseError(pe) => {
                    let toks = tokens(s.spec_bytes());
                    let fb = first_err(toks, channels as nat, sample_rate as nat, 0);
                    &&& fb < toks.len()
                    &&& match pe {
                        ParseError::UnknownToken(b) => tok_err(
                            toks[fb],
                            channels as nat,
                            sample_rate as nat,
                        ) == Some(TokErr::Unknown) && b@ == toks[fb],
                        ParseError::NotEnoughParameters(b) => tok_err(
                            toks[fb],
                            channels as nat,
                            sample_rate as nat,
                        ) == Some(TokErr::NoParam) && b@ == toks[fb],
                        ParseError::WrongParameterType(b) => tok_err(
                            toks[fb],
                            channels as nat,
                            sample_rate as nat,
                        ) == Some(TokErr::BadParam) && b@ == toks[fb],
                    }
                },
                // every token was good and the compiler ran out of
                // operands at the reported op, per the compiler's own
                // semantics
                Error::StackError(se) => {
                    let toks = tokens(s.spec_bytes());
                    &&& first_err(toks, channels as nat, sample_rate as nat, 0) == toks.len()
                    &&& se matches crate::stack::Error::StackExhausted(i) && exists|
                        ov: Seq<OpView>,
                    |
                        {
                            &&& (#[trigger] crate::stack::build_spec(ov, ov.len() as int))
                                == Err::<crate::stack::BuildState, int>(i as int)
                            &&& ov.len() == toks.len()
                            &&& forall|t: int|
                                0 <= t < ov.len() ==> tok_matches(
                                    toks[t],
                                    channels as nat,
                                    sample_rate as nat,
                                    #[trigger] ov[t],
                                )
                        }
                },
            },
        },
{
    match parse_ops(s, channels, sample_rate) {
        Ok(ops) => {
            let ghost opsv = crate::stack::ops_views(ops@);
            match crate::stack::build_graph(ops, channels, inputs) {
                Ok(g) => {
                    proof {
                        assert forall|t: int|
                            0 <= t < opsv.len() implies tok_matches(
                            tokens(s.spec_bytes())[t],
                            channels as nat,
                            sample_rate as nat,
                            #[trigger] opsv[t],
                        ) by {}
                    }
                    Ok(g)
                },
                Err(e) => {
                    proof {
                        assert forall|t: int|
                            0 <= t < opsv.len() implies tok_matches(
                            tokens(s.spec_bytes())[t],
                            channels as nat,
                            sample_rate as nat,
                            #[trigger] opsv[t],
                        ) by {}
                    }
                    Err(Error::StackError(e))
                },
            }
        },
        Err(e) => Err(Error::ParseError(e)),
    }
}

} // verus!
