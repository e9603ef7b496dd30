//! The exploration plan: which input pairs may be combined, and the
//! parameter tuples tried on each.
use crate::identity::{Mode, Params};
use crate::ratio::{spec_triple_admissible, triple_admissible, RatioPair};
use itertools::Itertools;
use vstd::prelude::*;

verus! {

/// What the exploration reads of a decoded waveform.
#[derive(Clone, Copy, Debug, PartialEq, Eq, Structural)]
pub struct WaveInfo {
    pub channels: usize,
    pub sample_rate: u32,
    pub len: usize,
}

/// Two waveforms can be combined when channel count and sample rate agree.
pub open spec fn spec_compatible(a: WaveInfo, b: WaveInfo) -> bool {
    a.channels == b.channels && a.sample_rate == b.sample_rate
}

pub fn compatible(a: &WaveInfo, b: &WaveInfo) -> (r: bool)
    ensures
        r == spec_compatible(*a, *b),
{
    a.channels == b.channels && a.sample_rate == b.sample_rate
}

/// Whether a candidate is worth synthesizing at all: compatible inputs and an
/// admissible ratio triple.
pub fn combinable(a: &WaveInfo, b: &WaveInfo, p: &Params) -> (r: bool)
    ensures
        r == (spec_compatible(*a, *b) && spec_triple_admissible(p.a, p.b, p.out)),
{
    compatible(a, b) && triple_admissible(p.a, p.b, p.out)
}

/// The compatible partners `j < m` of waveform `i`, in order.
pub open spec fn pair_row(infos: Seq<WaveInfo>, i: int, m: nat) -> Seq<(usize, usize)>
    decreases m,
{
    if m == 0 {
        Seq::empty()
    } else {
        pair_row(infos, i, (m - 1) as nat) + if spec_compatible(infos[i], infos[m - 1]) {
            seq![(i as usize, (m - 1) as usize)]
        } else {
            Seq::empty()
        }
    }
}

/// The compatible ordered pairs `(i, j)` with `i < m`, by `i`, then by `j`.
pub open spec fn pair_grid(infos: Seq<WaveInfo>, m: nat) -> Seq<(usize, usize)>
    decreases m,
{
    if m == 0 {
        Seq::empty()
    } else {
        pair_grid(infos, (m - 1) as nat) + pair_row(infos, m - 1, infos.len())
    }
}

/// Every ordered pair of indices (a waveform with itself included) whose
/// waveforms are compatible; no pair of differing sample rates is ever
/// produced.
pub fn candidate_pairs(infos: &Vec<WaveInfo>) -> (r: Vec<(usize, usize)>)
    ensures
        r@ == pair_grid(infos@, infos@.len()),
        forall|k: int|
            0 <= k < r@.len() ==> {
                &&& (#[trigger] r@[k]).0 < infos@.len()
                &&& r@[k].1 < infos@.len()
                &&& spec_compatible(infos@[r@[k].0 as int], infos@[r@[k].1 as int])
                &&& infos@[r@[k].0 as int].sample_rate == infos@[r@[k].1 as int].sample_rate
            },
{
    let ghost f = infos@;
    let n = infos.len();
    let mut r: Vec<(usize, usize)> = Vec::new();
    let mut i: usize = 0;
    while i < n
        invariant
            f == infos@,
            n == f.len(),
            i <= n,
            r@ == pair_grid(f, i as nat),
            forall|k: int|
                0 <= k < r@.len() ==> {
                    &&& (#[trigger] r@[k]).0 < n
                    &&& r@[k].1 < n
                    &&& spec_compatible(f[r@[k].0 as int], f[r@[k].1 as int])
                },
        decreases n - i,
    {
        let mut j: usize = 0;
        assert(r@ =~= pair_grid(f, i as nat) + pair_row(f, i as int, 0));
        while j < n
            invariant
                f == infos@,
                n == f.len(),
                i < n,
                j <= n,
                r@ == pair_grid(f, i as nat) + pair_row(f, i as int, j as nat),
                forall|k: int|
                    0 <= k < r@.len() ==> {
                        &&& (#[trigger] r@[k]).0 < n
                        &&& r@[k].1 < n
                        &&& spec_compatible(f[r@[k].0 as int], f[r@[k].1 as int])
                    },
            decreases n - j,
        {
            if compatible(&infos[i], &infos[j]) {
                r.push((i, j));
            }
            j = j + 1;
            assert(r@ =~= pair_grid(f, i as nat) + pair_row(f, i as int, j as nat));
        }
        i = i + 1;
    }
    r
}

/// The admissible triples `(a, b, out)` for fixed `out` and `b`, with `a` from
/// `xs` in order.
pub open spec fn triple_row(out: RatioPair, b: RatioPair, xs: Seq<RatioPair>) -> Seq<(RatioPair, RatioPair, RatioPair)>
    decreases xs.len(),
{
    if xs.len() == 0 {
        Seq::empty()
    } else {
        triple_row(out, b, xs.drop_last()) + if spec_triple_admissible(xs.last(), b, out) {
            seq![(xs.last(), b, out)]
        } else {
            Seq::empty()
        }
    }
}

/// The admissible triples for fixed `out`, with `b` from `bs` in order and `a`
/// from `rs`.
pub open spec fn triple_block(out: RatioPair, bs: Seq<RatioPair>, rs: Seq<RatioPair>) -> Seq<(RatioPair, RatioPair, RatioPair)>
    decreases bs.len(),
{
    if bs.len() == 0 {
        Seq::empty()
    } else {
        triple_block(out, bs.drop_last(), rs) + triple_row(out, bs.last(), rs)
    }
}

/// The admissible triples with `out` from `os` in order, and `b`, `a` from
/// `rs`.
pub open spec fn triple_grid(os: Seq<RatioPair>, rs: Seq<RatioPair>) -> Seq<(RatioPair, RatioPair, RatioPair)>
    decreases os.len(),
{
    if os.len() == 0 {
        Seq::empty()
    } else {
        triple_grid(os.drop_last(), rs) + triple_block(os.last(), rs, rs)
    }
}

/// Every triple `(a, b, out)` of the given ratio pairs that escapes pruning,
/// by output ratio, then by the ratio of B, then by that of A.
pub fn admissible_triples(rs: &Vec<RatioPair>) -> (r: Vec<(RatioPair, RatioPair, RatioPair)>)
    ensures
        r@ == triple_grid(rs@, rs@),
        forall|k: int|
            0 <= k < r@.len() ==> spec_triple_admissible((#[trigger] r@[k]).0, r@[k].1, r@[k].2),
{
    let ghost f = rs@;
    let n = rs.len();
    let mut r: Vec<(RatioPair, RatioPair, RatioPair)> = Vec::new();
    let mut i: usize = 0;
    while i < n
        invariant
            f == rs@,
            n == f.len(),
            i <= n,
            r@ == triple_grid(f.take(i as int), f),
            forall|k: int|
                0 <= k < r@.len() ==> spec_triple_admissible((#[trigger] r@[k]).0, r@[k].1, r@[k].2),
        decreases n - i,
    {
        let out = rs[i];
        let mut j: usize = 0;
        assert(r@ =~= triple_grid(f.take(i as int), f) + triple_block(out, f.take(0), f));
        while j < n
            invariant
                f == rs@,
                n == f.len(),
                i < n,
                out == f[i as int],
                j <= n,
                r@ == triple_grid(f.take(i as int), f) + triple_block(out, f.take(j as int), f),
                forall|k: int|
                    0 <= k < r@.len() ==> spec_triple_admissible((#[trigger] r@[k]).0, r@[k].1, r@[k].2),
            decreases n - j,
        {
            let b = rs[j];
            let mut k: usize = 0;
            let ghost base = r@;
            assert(r@ =~= base + triple_row(out, b, f.take(0)));
            while k < n
                invariant
                    f == rs@,
                    n == f.len(),
                    j < n,
                    b == f[j as int],
                    k <= n,
                    base == triple_grid(f.take(i as int), f) + triple_block(out, f.take(j as int), f),
                    r@ == base + triple_row(out, b, f.take(k as int)),
                    forall|q: int|
                        0 <= q < r@.len() ==> spec_triple_admissible((#[trigger] r@[q]).0, r@[q].1, r@[q].2),
                decreases n - k,
            {
                let a = rs[k];
                assert(f.take(k + 1).drop_last() =~= f.take(k as int));
                if triple_admissible(a, b, out) {
                    r.push((a, b, out));
                }
                k = k + 1;
                assert(r@ =~= base + triple_row(out, b, f.take(k as int)));
            }
            assert(f.take(k as int) =~= f);
            assert(f.take(j + 1).drop_last() =~= f.take(j as int));
            j = j + 1;
            assert(r@ =~= triple_grid(f.take(i as int), f) + triple_block(out, f.take(j as int), f));
        }
        assert(f.take(j as int) =~= f);
        assert(f.take(i + 1).drop_last() =~= f.take(i as int));
        i = i + 1;
    }
    assert(f.take(i as int) =~= f);
    r
}

/// The modes in the order in which they are tried.
pub open spec fn mode_at(i: int) -> Mode {
    if i == 0 {
        Mode::Multiply
    } else if i == 1 {
        Mode::ArctanSum
    } else if i == 2 {
        Mode::FreqMultiply
    } else if i == 3 {
        Mode::Divide
    } else {
        Mode::FreqDivideNormalized
    }
}

/// The twenty tuples of one ratio triple: each mode, and for each the polarity
/// flags (on, on), (on, off), (off, on), (off, off).
pub open spec fn variants(t: (RatioPair, RatioPair, RatioPair)) -> Seq<Params> {
    Seq::new(
        20,
        |k: int|
            Params {
                a: t.0,
                b: t.1,
                out: t.2,
                mode: mode_at(k / 4),
                invert_a: k % 4 < 2,
                invert_b: k % 2 == 0,
            },
    )
}

/// The tuples of each triple of `ts`, in order.
pub open spec fn tuples_of(ts: Seq<(RatioPair, RatioPair, RatioPair)>) -> Seq<Params>
    decreases ts.len(),
{
    if ts.len() == 0 {
        Seq::empty()
    } else {
        tuples_of(ts.drop_last()) + variants(ts.last())
    }
}

/// Relies on itertools' `cartesian_product`: every pair of an element of `xs`
/// with one of `ys`, by position in `xs`, then in `ys`.
#[verifier::external_body]
fn cartesian_flags(xs: &Vec<bool>, ys: &Vec<bool>) -> (r: Vec<(bool, bool)>)
    ensures
        r@.len() == xs@.len() * ys@.len(),
        forall|i: int, j: int|
            #![trigger xs@[i], ys@[j]]
            0 <= i < xs@.len() && 0 <= j < ys@.len() ==> r@[i * ys@.len() + j] == (xs@[i], ys@[j]),
{
    xs.iter().copied().cartesian_product(ys.iter().copied()).collect()
}

/// Every parameter tuple of the exploration over the given ratio pairs: each
/// admissible triple with each mode and each pair of polarity flags.
pub fn parameter_tuples(rs: &Vec<RatioPair>) -> (r: Vec<Params>)
    ensures
        r@ == tuples_of(triple_grid(rs@, rs@)),
        forall|k: int|
            0 <= k < r@.len() ==> spec_triple_admissible((#[trigger] r@[k]).a, r@[k].b, r@[k].out),
{
    let ts = admissible_triples(rs);
    let ghost tg = ts@;
    let both = vec![true, false];
    let flags = cartesian_flags(&both, &both);
    proof {
        assert(both@[0] == true && both@[1] == false);
        assert(flags@[0int * 2 + 0] == (both@[0], both@[0]));
        assert(flags@[0int * 2 + 1] == (both@[0], both@[1]));
        assert(flags@[1int * 2 + 0] == (both@[1], both@[0]));
        assert(flags@[1int * 2 + 1] == (both@[1], both@[1]));
    }
    let modes = vec![Mode::Multiply, Mode::ArctanSum, Mode::FreqMultiply, Mode::Divide, Mode::FreqDivideNormalized];
    let mut r: Vec<Params> = Vec::new();
    let mut i: usize = 0;
    while i < ts.len()
        invariant
            tg == ts@,
            i <= tg.len(),
            r@ == tuples_of(tg.take(i as int)),
            forall|k: int| 0 <= k < tg.len() ==> spec_triple_admissible((#[trigger] tg[k]).0, tg[k].1, tg[k].2),
            forall|k: int|
                0 <= k < r@.len() ==> spec_triple_admissible((#[trigger] r@[k]).a, r@[k].b, r@[k].out),
            flags@ == seq![(true, true), (true, false), (false, true), (false, false)],
            modes@ == seq![Mode::Multiply, Mode::ArctanSum, Mode::FreqMultiply, Mode::Divide, Mode::FreqDivideNormalized],
        decreases tg.len() - i,
    {
        let t = ts[i];
        let ghost base = r@;
        let mut m: usize = 0;
        while m < 5
            invariant
                m <= 5,
                r@ == base + variants(t).take(4 * m),
                spec_triple_admissible(t.0, t.1, t.2),
                forall|k: int|
                    0 <= k < r@.len() ==> spec_triple_admissible((#[trigger] r@[k]).a, r@[k].b, r@[k].out),
                flags@ == seq![(true, true), (true, false), (false, true), (false, false)],
                modes@ == seq![Mode::Multiply, Mode::ArctanSum, Mode::FreqMultiply, Mode::Divide, Mode::FreqDivideNormalized],
            decreases 5 - m,
        {
            let mut q: usize = 0;
            while q < 4
                invariant
                    m < 5,
                    q <= 4,
                    r@ == base + variants(t).take(4 * m + q),
                    spec_triple_admissible(t.0, t.1, t.2),
                    forall|k: int|
                        0 <= k < r@.len() ==> spec_triple_admissible((#[trigger] r@[k]).a, r@[k].b, r@[k].out),
                    flags@ == seq![(true, true), (true, false), (false, true), (false, false)],
                    modes@ == seq![Mode::Multiply, Mode::ArctanSum, Mode::FreqMultiply, Mode::Divide, Mode::FreqDivideNormalized],
                decreases 4 - q,
            {
                let fl = flags[q];
                r.push(Params { a: t.0, b: t.1, out: t.2, mode: modes[m], invert_a: fl.0, invert_b: fl.1 });
                proof {
                    let k = 4 * m + q;
                    assert(k / 4 == m as int);
                    assert(k % 4 == q as int);
                    assert(k % 2 == q as int % 2);
                    assert(variants(t)[k] == r@.last());
                }
                q = q + 1;
                assert(r@ =~= base + variants(t).take(4 * m + q));
            }
            m = m + 1;
        }
        assert(variants(t).take(20) =~= variants(t));
        assert(tg.take(i + 1).drop_last() =~= tg.take(i as int));
        i = i + 1;
        assert(r@ =~= tuples_of(tg.take(i as int)));
    }
    assert(tg.take(i as int) =~= tg);
    r
}

/// Whether the output is written at the lower bit depth: its duration exceeds
/// 1.4 times that of both sources. All three share one sample rate, so the
/// durations compare as lengths.
pub fn prefers_low_bit_depth(out_len: usize, a_len: usize, b_len: usize) -> (r: bool)
    ensures
        r == (5 * out_len > 7 * a_len && 5 * out_len > 7 * b_len),
{
    let o = 5 * (out_len as u128);
    o > 7 * (a_len as u128) && o > 7 * (b_len as u128)
}

} // verus!
