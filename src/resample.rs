//! Rational resampling by holding samples: repeat every sample `x` times, then
//! keep every `s`-th element of the repeated stream.
use vstd::prelude::*;

verus! {

/// The stream in which every element of `v` is repeated `x` times.
pub open spec fn expanded<T>(v: Seq<T>, x: nat) -> Seq<T> {
    Seq::new(v.len() * x, |j: int| v[j / (x as int)])
}

/// Number of elements kept when every `s`-th element of `n` is kept.
pub open spec fn strided_len(n: nat, s: nat) -> nat {
    ((n + s - 1) as int / (s as int)) as nat
}

/// The elements of `v` at the positions that are multiples of `s`.
pub open spec fn strided<T>(v: Seq<T>, s: nat) -> Seq<T> {
    Seq::new(strided_len(v.len(), s), |k: int| v[k * s])
}

/// Repeat-then-stride resampling by the ratio `x / s`.
pub open spec fn resampled<T>(v: Seq<T>, x: nat, s: nat) -> Seq<T> {
    strided(expanded(v, x), s)
}

/// Two streams zipped position by position, the shorter one repeating from its
/// start until the longer one ends; empty when either stream is empty.
pub open spec fn aligned<A, B>(a: Seq<A>, b: Seq<B>) -> Seq<(A, B)> {
    if a.len() == 0 || b.len() == 0 {
        Seq::empty()
    } else {
        let n = if a.len() >= b.len() { a.len() } else { b.len() };
        Seq::new(n, |i: int| (a[i % (a.len() as int)], b[i % (b.len() as int)]))
    }
}

/// The first `cap` elements of the repeat-then-stride resampling, by `x / s`,
/// of the endless repetition of `c`; empty when `c` is.
pub open spec fn stretched<T>(c: Seq<T>, x: nat, s: nat, cap: nat) -> Seq<T> {
    if c.len() == 0 {
        Seq::empty()
    } else {
        Seq::new(cap, |k: int| c[((k * s) / (x as int)) % (c.len() as int)])
    }
}

proof fn lemma_kept_position(k: int, n: int, s: int)
    requires
        s >= 1,
        n >= 0,
        0 <= k < (n + s - 1) / s,
    ensures
        0 <= k * s < n,
{
    assert(k * s >= 0) by (nonlinear_arith)
        requires k >= 0, s >= 1;
    assert(k * s < n) by (nonlinear_arith)
        requires s >= 1, n >= 0, 0 <= k < (n + s - 1) / s;
}

proof fn lemma_mod_step(i: int, l: int)
    requires
        l > 0,
        i >= 0,
    ensures
        (i + 1) % l == if i % l + 1 == l { 0 } else { i % l + 1 },
{
    vstd::arithmetic::div_mod::lemma_add_mod_noop_right(1, i, l);
    vstd::arithmetic::div_mod::lemma_mod_bound(i, l);
    if i % l + 1 < l {
        vstd::arithmetic::div_mod::lemma_small_mod((i % l + 1) as nat, l as nat);
    } else {
        vstd::arithmetic::div_mod::lemma_mod_self_0(l);
    }
}

/// Resamples `v` by `x / s`: each sample is held for `x` positions and every
/// `s`-th position is kept.
pub fn resample<T: Copy>(v: &Vec<T>, x: usize, s: usize) -> (r: Vec<T>)
    requires
        x >= 1,
        s >= 1,
        strided_len(v@.len() * (x as nat), s as nat) <= usize::MAX,
    ensures
        r@ == resampled(v@, x as nat, s as nat),
{
    let ghost goal = resampled(v@, x as nat, s as nat);
    let n = v.len();
    proof {
        assert((n as int) * (x as int) <= 0xffff_ffff_ffff_ffffint * 0xffff_ffff_ffff_ffffint)
            by (nonlinear_arith)
            requires n <= 0xffff_ffff_ffff_ffffint, x <= 0xffff_ffff_ffff_ffffint, n >= 0;
    }
    let total: u128 = (n as u128) * (x as u128);
    let len: usize = ((total + (s as u128) - 1) / (s as u128)) as usize;
    assert(len == goal.len());
    let mut r: Vec<T> = Vec::new();
    let mut k: usize = 0;
    while k < len
        invariant
            k <= len,
            len == goal.len(),
            total == n * x,
            x >= 1,
            s >= 1,
            n == v@.len(),
            goal == resampled(v@, x as nat, s as nat),
            r@ == goal.take(k as int),
        decreases len - k,
    {
        proof {
            lemma_kept_position(k as int, total as int, s as int);
            assert((k as int) * (s as int) / (x as int) < n) by (nonlinear_arith)
                requires (k as int) * (s as int) < n * x, x >= 1, k >= 0, s >= 1;
            assert((k as int) * (s as int) / (x as int) >= 0) by (nonlinear_arith)
                requires k >= 0, s >= 1, x >= 1;
        }
        let p: u128 = (k as u128) * (s as u128);
        let i: usize = (p / (x as u128)) as usize;
        r.push(v[i]);
        k = k + 1;
        assert(r@ =~= goal.take(k as int));
    }
    assert(r@ =~= goal);
    r
}

/// Zips two streams, the shorter one repeating from its start until the
/// longer one ends.
pub fn align<A: Copy, B: Copy>(a: &Vec<A>, b: &Vec<B>) -> (r: Vec<(A, B)>)
    ensures
        r@ == aligned(a@, b@),
{
    let ghost goal = aligned(a@, b@);
    let mut r: Vec<(A, B)> = Vec::new();
    if a.len() == 0 || b.len() == 0 {
        assert(r@ =~= goal);
        return r;
    }
    let n: usize = if a.len() >= b.len() { a.len() } else { b.len() };
    let mut i: usize = 0;
    let mut ia: usize = 0;
    let mut ib: usize = 0;
    while i < n
        invariant
            a@.len() > 0,
            b@.len() > 0,
            n == goal.len(),
            i <= n,
            goal == aligned(a@, b@),
            ia == (i as int) % (a@.len() as int),
            ib == (i as int) % (b@.len() as int),
            r@ == goal.take(i as int),
        decreases n - i,
    {
        r.push((a[ia], b[ib]));
        proof {
            lemma_mod_step(i as int, a@.len() as int);
            lemma_mod_step(i as int, b@.len() as int);
        }
        i = i + 1;
        ia = if ia + 1 == a.len() { 0 } else { ia + 1 };
        ib = if ib + 1 == b.len() { 0 } else { ib + 1 };
        assert(r@ =~= goal.take(i as int));
    }
    assert(r@ =~= goal);
    r
}

/// Resamples the endless repetition of `c` by `x / s` and keeps its first
/// `cap` elements.
pub fn stretch<T: Copy>(c: &Vec<T>, x: usize, s: usize, cap: usize) -> (r: Vec<T>)
    requires
        x >= 1,
        s >= 1,
    ensures
        r@ == stretched(c@, x as nat, s as nat, cap as nat),
{
    let ghost goal = stretched(c@, x as nat, s as nat, cap as nat);
    let mut r: Vec<T> = Vec::new();
    let m = c.len();
    if m == 0 {
        assert(r@ =~= goal);
        return r;
    }
    let mut k: usize = 0;
    while k < cap
        invariant
            k <= cap,
            m == c@.len(),
            m > 0,
            x >= 1,
            s >= 1,
            goal == stretched(c@, x as nat, s as nat, cap as nat),
            r@ == goal.take(k as int),
        decreases cap - k,
    {
        proof {
            assert((k as int) * (s as int) <= 0xffff_ffff_ffff_ffffint * 0xffff_ffff_ffff_ffffint)
                by (nonlinear_arith)
                requires k <= 0xffff_ffff_ffff_ffffint, s <= 0xffff_ffff_ffff_ffffint, k >= 0, s >= 0;
            assert((k as int) * (s as int) / (x as int) >= 0) by (nonlinear_arith)
                requires k >= 0, s >= 1, x >= 1;
        }
        let p: u128 = (k as u128) * (s as u128);
        let i: usize = ((p / (x as u128)) % (m as u128)) as usize;
        r.push(c[i]);
        k = k + 1;
        assert(r@ =~= goal.take(k as int));
    }
    assert(r@ =~= goal);
    r
}

/// The neutral ratio leaves a stream unchanged.
pub proof fn lemma_neutral_resample<T>(v: Seq<T>)
    ensures
        resampled(v, 1, 1) == v,
{
    assert(resampled(v, 1, 1) =~= v);
}

/// Stretching by `x` and then striding by `x` gives back the stream.
pub proof fn lemma_stretch_round_trip<T>(v: Seq<T>, x: nat)
    requires
        x >= 1,
    ensures
        resampled(resampled(v, x, 1), 1, x) == v,
{
    let up = resampled(v, x, 1);
    let n = v.len() as int;
    let xi = x as int;
    assert(up.len() == n * xi) by {
        assert(((n * xi + 1 - 1) as int) / 1 == n * xi);
    }
    let down = resampled(up, 1, x);
    assert((n * xi + xi - 1) / xi == n) by (nonlinear_arith)
        requires xi >= 1, n >= 0;
    assert(down.len() == n);
    assert forall|k: int| 0 <= k < n implies down[k] == v[k] by {
        assert(k * xi / xi == k) by (nonlinear_arith)
            requires xi >= 1;
        assert(0 <= k * xi < n * xi) by (nonlinear_arith)
            requires xi >= 1, 0 <= k < n;
    }
    assert(down =~= v);
}

/// With the neutral output ratio and a cap no longer than the combined stream,
/// the output is the combined stream cut to the cap.
pub proof fn lemma_neutral_stretch<T>(c: Seq<T>, cap: nat)
    requires
        cap <= c.len(),
    ensures
        stretched(c, 1, 1, cap) == c.take(cap as int),
{
    if c.len() > 0 {
        let st = stretched(c, 1, 1, cap);
        assert forall|k: int| 0 <= k < cap implies #[trigger] st[k] == c[k] by {
            vstd::arithmetic::div_mod::lemma_small_mod(k as nat, c.len());
        }
        assert(st =~= c.take(cap as int));
    } else {
        assert(stretched(c, 1, 1, cap) =~= c.take(cap as int));
    }
}

/// Aligning two streams of one length pairs them position by position.
pub proof fn lemma_aligned_equal_lengths<A, B>(a: Seq<A>, b: Seq<B>)
    requires
        a.len() == b.len(),
    ensures
        aligned(a, b) == Seq::new(a.len(), |i: int| (a[i], b[i])),
{
    if a.len() > 0 {
        let al = aligned(a, b);
        assert forall|i: int| 0 <= i < a.len() implies #[trigger] al[i] == (a[i], b[i]) by {
            vstd::arithmetic::div_mod::lemma_small_mod(i as nat, a.len());
        }
    }
    assert(aligned(a, b) =~= Seq::new(a.len(), |i: int| (a[i], b[i])));
}

/// Aligning the streams in the other order swaps each pair and nothing else.
pub proof fn lemma_aligned_swapped<A, B>(a: Seq<A>, b: Seq<B>)
    ensures
        aligned(b, a) == aligned(a, b).map_values(|p: (A, B)| (p.1, p.0)),
{
    assert(aligned(b, a) =~= aligned(a, b).map_values(|p: (A, B)| (p.1, p.0)));
}

/// With every ratio neutral, two inputs of one length come out paired
/// position by position, at the length of the inputs.
pub proof fn lemma_neutral_pipeline<A, B>(a: Seq<A>, b: Seq<B>)
    requires
        a.len() == b.len(),
    ensures
        stretched(aligned(resampled(a, 1, 1), resampled(b, 1, 1)), 1, 1, a.len())
            == Seq::new(a.len(), |i: int| (a[i], b[i])),
{
    lemma_neutral_resample(a);
    lemma_neutral_resample(b);
    lemma_aligned_equal_lengths(a, b);
    let z = Seq::new(a.len(), |i: int| (a[i], b[i]));
    lemma_neutral_stretch(z, a.len());
    assert(z.take(a.len() as int) =~= z);
}

/// Swapping the inputs swaps every output pair and changes nothing else, for
/// any output ratio and cap.
pub proof fn lemma_pipeline_swapped<A, B>(a: Seq<A>, b: Seq<B>, x: nat, s: nat, cap: nat)
    ensures
        stretched(aligned(b, a), x, s, cap) == stretched(aligned(a, b), x, s, cap).map_values(
            |p: (A, B)| (p.1, p.0),
        ),
{
    lemma_aligned_swapped(a, b);
    assert(stretched(aligned(b, a), x, s, cap) =~= stretched(aligned(a, b), x, s, cap).map_values(
        |p: (A, B)| (p.1, p.0),
    ));
}

} // verus!
