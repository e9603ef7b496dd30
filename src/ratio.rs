//! Ratio pairs, their enumeration, and the pruning of degenerate triples.
use itertools::Itertools;
use vstd::prelude::*;

verus! {

/// Resampling by `factor / stride`: every sample is repeated `factor` times,
/// then every `stride`-th element is kept.
#[derive(Clone, Copy, Debug, PartialEq, Eq, Structural)]
pub struct RatioPair {
    pub factor: usize,
    pub stride: usize,
}

impl RatioPair {
    pub open spec fn wf(self) -> bool {
        self.factor >= 1 && self.stride >= 1
    }

    /// The ratio that leaves a stream unchanged.
    pub open spec fn is_neutral(self) -> bool {
        self.factor == 1 && self.stride == 1
    }

    /// The stride is at least twice the factor.
    pub open spec fn spec_near_down(self) -> bool {
        self.stride >= 2 * self.factor
    }

    /// The factor is at least twice the stride.
    pub open spec fn spec_near_up(self) -> bool {
        self.factor >= 2 * self.stride
    }

    pub fn new(factor: usize, stride: usize) -> (r: RatioPair)
        ensures
            r.factor == factor,
            r.stride == stride,
    {
        RatioPair { factor, stride }
    }

    pub fn near_down(&self) -> (r: bool)
        ensures
            r == self.spec_near_down(),
    {
        self.stride / 2 >= self.factor
    }

    pub fn near_up(&self) -> (r: bool)
        ensures
            r == self.spec_near_up(),
    {
        self.factor / 2 >= self.stride
    }
}

/// How many of three conditions hold.
pub open spec fn count_true(p: bool, q: bool, r: bool) -> nat {
    (if p { 1nat } else { 0nat }) + (if q { 1nat } else { 0nat }) + (if r { 1nat } else { 0nat })
}

/// A triple of ratios is kept unless two or more of its pairs are near
/// down-sampling, or two or more are near up-sampling.
pub open spec fn spec_triple_admissible(a: RatioPair, b: RatioPair, out: RatioPair) -> bool {
    count_true(a.spec_near_down(), b.spec_near_down(), out.spec_near_down()) < 2
        && count_true(a.spec_near_up(), b.spec_near_up(), out.spec_near_up()) < 2
}

/// Relies on itertools' `array_combinations`: the 2-combinations of three
/// items, in lexicographic order of their positions.
#[verifier::external_body]
fn pair_combinations(ps: [RatioPair; 3]) -> (r: Vec<[RatioPair; 2]>)
    ensures
        r@.len() == 3,
        r@[0]@ == seq![ps@[0], ps@[1]],
        r@[1]@ == seq![ps@[0], ps@[2]],
        r@[2]@ == seq![ps@[1], ps@[2]],
{
    ps.into_iter().array_combinations::<2>().collect()
}

/// Whether the triple (input A, input B, output) escapes the pruning rule.
pub fn triple_admissible(a: RatioPair, b: RatioPair, out: RatioPair) -> (r: bool)
    ensures
        r == spec_triple_admissible(a, b, out),
{
    let combos = pair_combinations([a, b, out]);
    let mut down = false;
    let mut up = false;
    let mut i: usize = 0;
    while i < combos.len()
        invariant
            combos@.len() == 3,
            combos@[0]@ == seq![a, b],
            combos@[1]@ == seq![a, out],
            combos@[2]@ == seq![b, out],
            i <= 3,
            down == exists|j: int|
                0 <= j < i && (#[trigger] combos@[j])@[0].spec_near_down()
                    && combos@[j]@[1].spec_near_down(),
            up == exists|j: int|
                0 <= j < i && (#[trigger] combos@[j])@[0].spec_near_up()
                    && combos@[j]@[1].spec_near_up(),
        decreases 3 - i,
    {
        let c = combos[i];
        let both_down = c[0].near_down() && c[1].near_down();
        let both_up = c[0].near_up() && c[1].near_up();
        proof {
            if both_down {
                assert(combos@[i as int]@[0].spec_near_down() && combos@[i as int]@[1].spec_near_down());
            }
            if both_up {
                assert(combos@[i as int]@[0].spec_near_up() && combos@[i as int]@[1].spec_near_up());
            }
        }
        down = down || both_down;
        up = up || both_up;
        i = i + 1;
    }
    proof {
        assert(combos@[0]@[0] == a && combos@[0]@[1] == b);
        assert(combos@[1]@[0] == a && combos@[1]@[1] == out);
        assert(combos@[2]@[0] == b && combos@[2]@[1] == out);
    }
    !down && !up
}

/// Whether `x` may be paired with stride `s`: equal members only in the
/// neutral pair.
pub open spec fn keeps(x: usize, s: usize) -> bool {
    s != x || s == 1
}

/// The admissible pairs whose factor is `x`, strides in the order of `f`.
pub open spec fn row(x: usize, f: Seq<usize>) -> Seq<RatioPair>
    decreases f.len(),
{
    if f.len() == 0 {
        Seq::empty()
    } else {
        row(x, f.drop_last()) + if keeps(x, f.last()) {
            seq![RatioPair { factor: x, stride: f.last() }]
        } else {
            Seq::empty()
        }
    }
}

/// The admissible pairs with factors from `xs` and strides from `f`, by
/// factor, then by stride.
pub open spec fn grid(xs: Seq<usize>, f: Seq<usize>) -> Seq<RatioPair>
    decreases xs.len(),
{
    if xs.len() == 0 {
        Seq::empty()
    } else {
        grid(xs.drop_last(), f) + row(xs.last(), f)
    }
}

/// The set of expand factors that the exploration draws from.
pub fn default_factors() -> (r: Vec<usize>)
    ensures
        r@ == seq![1usize, 2, 3, 5],
{
    let r = vec![1usize, 2, 3, 5];
    assert(r@ =~= seq![1usize, 2, 3, 5]);
    r
}

/// Every pair `(x, s)` of the factors with `x != s`, and the neutral pair.
pub fn ratio_pairs(factors: &Vec<usize>) -> (r: Vec<RatioPair>)
    ensures
        r@ == grid(factors@, factors@),
        (forall|i: int| 0 <= i < factors@.len() ==> factors@[i] >= 1) ==> forall|k: int|
            0 <= k < r@.len() ==> (#[trigger] r@[k]).wf(),
{
    let ghost f = factors@;
    let ghost positive = forall|i: int| 0 <= i < f.len() ==> f[i] >= 1;
    let mut r: Vec<RatioPair> = Vec::new();
    let mut i: usize = 0;
    while i < factors.len()
        invariant
            f == factors@,
            i <= f.len(),
            r@ == grid(f.take(i as int), f),
            positive == forall|i: int| 0 <= i < f.len() ==> f[i] >= 1,
            positive ==> forall|k: int| 0 <= k < r@.len() ==> (#[trigger] r@[k]).wf(),
        decreases f.len() - i,
    {
        let x = factors[i];
        let mut j: usize = 0;
        assert(row(x, f.take(0)) =~= Seq::<RatioPair>::empty());
        assert(r@ =~= grid(f.take(i as int), f) + row(x, f.take(0)));
        while j < factors.len()
            invariant
                f == factors@,
                i < f.len(),
                x == f[i as int],
                j <= f.len(),
                r@ == grid(f.take(i as int), f) + row(x, f.take(j as int)),
                positive == forall|i: int| 0 <= i < f.len() ==> f[i] >= 1,
                positive ==> forall|k: int| 0 <= k < r@.len() ==> (#[trigger] r@[k]).wf(),
            decreases f.len() - j,
        {
            let s = factors[j];
            assert(f.take(j + 1).drop_last() =~= f.take(j as int));
            if s != x || s == 1 {
                r.push(RatioPair { factor: x, stride: s });
            }
            j = j + 1;
            assert(r@ =~= grid(f.take(i as int), f) + row(x, f.take(j as int)));
        }
        assert(f.take(i + 1).drop_last() =~= f.take(i as int));
        assert(f.take(j as int) =~= f);
        i = i + 1;
    }
    assert(f.take(i as int) =~= f);
    r
}

pub open spec fn max_nat(a: nat, b: nat) -> nat {
    if a >= b { a } else { b }
}

pub open spec fn min_nat(a: nat, b: nat) -> nat {
    if a <= b { a } else { b }
}

/// The largest of the six components of a ratio triple.
pub open spec fn largest_component(a: RatioPair, b: RatioPair, out: RatioPair) -> nat {
    max_nat(
        max_nat(max_nat(a.factor as nat, a.stride as nat), max_nat(b.factor as nat, b.stride as nat)),
        max_nat(out.factor as nat, out.stride as nat),
    )
}

/// The bound on the number of samples of one output channel.
pub open spec fn spec_output_cap(len_a: nat, len_b: nat, a: RatioPair, b: RatioPair, out: RatioPair) -> nat {
    min_nat(len_a, len_b) * min_nat(largest_component(a, b, out), 3)
}

/// The shorter input's length times the largest ratio component, which is
/// counted as 3 at most.
pub fn output_cap(len_a: usize, len_b: usize, a: RatioPair, b: RatioPair, out: RatioPair) -> (r: usize)
    requires
        spec_output_cap(len_a as nat, len_b as nat, a, b, out) <= usize::MAX,
    ensures
        r == spec_output_cap(len_a as nat, len_b as nat, a, b, out),
{
    let shorter = if len_a <= len_b { len_a } else { len_b };
    let mut m = if a.factor >= a.stride { a.factor } else { a.stride };
    if b.factor > m {
        m = b.factor;
    }
    if b.stride > m {
        m = b.stride;
    }
    if out.factor > m {
        m = out.factor;
    }
    if out.stride > m {
        m = out.stride;
    }
    let m = if m <= 3 { m } else { 3 };
    shorter * m
}

} // verus!
