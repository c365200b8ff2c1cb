//! The statistics of a metric.
//!
//! Percentiles are nearest-rank: each is a value that was observed, never one in between.

use crate::bench::report::{is_throughput, unit_of, BenchReport, MetricAggregate};
use crate::number::double::Double;
use crate::number::laws::{
    lemma_alike_minus, lemma_alike_over, lemma_alike_plus, lemma_alike_times,
    lemma_negative_zero_plus, lemma_over_one, lemma_same_rank,
};
use vstd::prelude::*;

verus! {

/// The samples that are numbers.
pub open spec fn kept(samples: Seq<Double>) -> Seq<Double>
    decreases samples.len(),
{
    if samples.len() == 0 {
        Seq::empty()
    } else if samples.last().nan() {
        kept(samples.drop_last())
    } else {
        kept(samples.drop_last()).push(samples.last())
    }
}

/// `x` put into a sequence in increasing order, behind every number that is not greater.
pub open spec fn placed(s: Seq<Double>, x: Double) -> Seq<Double>
    decreases s.len(),
{
    if s.len() > 0 && x.rank() < s.last().rank() {
        placed(s.drop_last(), x).push(s.last())
    } else {
        s.push(x)
    }
}

/// The numbers in increasing order, equal ones in their original order.
pub open spec fn in_order(s: Seq<Double>) -> Seq<Double>
    decreases s.len(),
{
    if s.len() == 0 {
        Seq::empty()
    } else {
        placed(in_order(s.drop_last()), s.last())
    }
}

/// The sum of the numbers from left to right, rounded after each step. The empty sum is
/// negative zero, which changes nothing that is added to it.
pub open spec fn total(s: Seq<Double>) -> Double
    decreases s.len(),
{
    if s.len() == 0 {
        Double { bits: 0x8000_0000_0000_0000 }
    } else {
        total(s.drop_last()).plus(s.last())
    }
}

/// The arithmetic mean.
pub open spec fn mean_of(s: Seq<Double>) -> Double {
    total(s).over(Double::integer(s.len() as int))
}

/// The squared distances from `mean`.
pub open spec fn squared_deviations(s: Seq<Double>, mean: Double) -> Seq<Double> {
    s.map_values(|x: Double| x.minus(mean).times(x.minus(mean)))
}

/// The standard deviation of a sample: denominator `n - 1`, and zero for a single number.
pub open spec fn deviation_of(s: Seq<Double>) -> Double {
    if s.len() > 1 {
        total(squared_deviations(s, mean_of(s))).over(
            Double::integer(s.len() as int).minus(Double::integer(1)),
        ).square_root()
    } else {
        Double::of(false, 0)
    }
}

/// The index of the nearest-rank percentile among `n` ordered values: the rank is
/// `percent * n / 100` rounded up, and at least 1.
pub open spec fn rank_index(percent: int, n: int) -> int {
    let rank = (percent * n + 99) / 100;
    if rank < 1 {
        0
    } else if rank > n {
        n - 1
    } else {
        rank - 1
    }
}

/// Whether `a` aggregates `samples` for the metric `name`.
pub open spec fn aggregates(a: MetricAggregate, name: Seq<char>, samples: Seq<Double>) -> bool {
    let s = in_order(kept(samples));
    let n = s.len() as int;
    &&& a.name@ == name
    &&& a.unit@ == unit_of(name)
    &&& a.higher_is_better == is_throughput(name)
    &&& a.min == s[0]
    &&& a.p50 == s[rank_index(50, n)]
    &&& a.p90 == s[rank_index(90, n)]
    &&& a.p99 == s[rank_index(99, n)]
    &&& a.max == s[n - 1]
    &&& a.mean == mean_of(s)
    &&& a.stdev == deviation_of(s)
    &&& a.n == n
}

fn keep_numbers(samples: &[Double]) -> (r: Vec<Double>)
    ensures
        r@ == kept(samples@),
{
    let mut r: Vec<Double> = Vec::new();
    let mut i: usize = 0;
    assert(samples@.take(0) == Seq::<Double>::empty());
    while i < samples.len()
        invariant
            i <= samples.len(),
            r@ == kept(samples@.take(i as int)),
        decreases samples.len() - i,
    {
        let x: Double = samples[i];
        assert(samples@.take(i + 1).drop_last() == samples@.take(i as int));
        assert(samples@.take(i + 1).last() == x);
        if !x.is_nan() {
            r.push(x);
        }
        i = i + 1;
    }
    assert(samples@.take(samples.len() as int) == samples@);
    r
}

proof fn lemma_placed_len(s: Seq<Double>, x: Double)
    ensures
        placed(s, x).len() == s.len() + 1,
    decreases s.len(),
{
    if s.len() > 0 && x.rank() < s.last().rank() {
        lemma_placed_len(s.drop_last(), x);
    }
}

/// Puts `x` into the ordered vector.
fn place(s: &mut Vec<Double>, x: Double)
    ensures
        final(s)@ == placed(old(s)@, x),
{
    let ghost start = s@;
    let mut at: usize = s.len();
    assert(start.take(at as int) == start);
    assert(start.skip(at as int) == Seq::<Double>::empty());
    while at > 0 && x.ranks_below(s[at - 1])
        invariant
            at <= s.len(),
            s@ == start,
            placed(start, x) == placed(start.take(at as int), x) + start.skip(at as int),
        decreases at,
    {
        proof {
            let part = start.take(at as int);
            assert(part.drop_last() == start.take(at - 1));
            assert(part.last() == start[at - 1]);
            assert(placed(part, x) == placed(start.take(at - 1), x).push(start[at - 1]));
            assert(placed(part, x) + start.skip(at as int) == placed(start.take(at - 1), x)
                + start.skip(at - 1));
        }
        at = at - 1;
    }
    proof {
        let part = start.take(at as int);
        if at > 0 {
            assert(part.last() == start[at - 1]);
        }
        assert(placed(part, x) == part.push(x));
        assert(start.insert(at as int, x) == part.push(x) + start.skip(at as int));
    }
    s.insert(at, x);
}

/// The numbers in increasing order.
pub fn sort_numbers(s: &Vec<Double>) -> (r: Vec<Double>)
    ensures
        r@ == in_order(s@),
        r.len() == s.len(),
{
    let mut r: Vec<Double> = Vec::new();
    let mut i: usize = 0;
    assert(s@.take(0) == Seq::<Double>::empty());
    while i < s.len()
        invariant
            i <= s.len(),
            r.len() == i,
            r@ == in_order(s@.take(i as int)),
        decreases s.len() - i,
    {
        let x: Double = s[i];
        proof {
            assert(s@.take(i + 1).drop_last() == s@.take(i as int));
            assert(s@.take(i + 1).last() == x);
            lemma_placed_len(r@, x);
        }
        place(&mut r, x);
        i = i + 1;
    }
    assert(s@.take(s.len() as int) == s@);
    r
}

/// The nearest-rank percentile of the numbers, zero where there are none.
pub open spec fn percentile_of(s: Seq<Double>, percent: int) -> Double {
    if s.len() == 0 {
        Double::of(false, 0)
    } else {
        in_order(s)[rank_index(percent, s.len() as int)]
    }
}

/// The nearest-rank percentile of the numbers, zero where there are none.
pub fn nearest_rank(s: &Vec<Double>, percent: u32) -> (r: Double)
    ensures
        r == percentile_of(s@, percent as int),
{
    if s.len() == 0 {
        Double::from_bits(0)
    } else {
        let sorted = sort_numbers(s);
        sorted[percentile_index(percent, s.len())]
    }
}

/// The sum of the numbers from left to right.
pub fn sum_numbers(s: &Vec<Double>) -> (r: Double)
    ensures
        r == total(s@),
{
    let mut r: Double = Double { bits: 0x8000_0000_0000_0000 };
    let mut i: usize = 0;
    assert(s@.take(0) == Seq::<Double>::empty());
    while i < s.len()
        invariant
            i <= s.len(),
            r == total(s@.take(i as int)),
        decreases s.len() - i,
    {
        assert(s@.take(i + 1).drop_last() == s@.take(i as int));
        r = r.add(s[i]);
        i = i + 1;
    }
    assert(s@.take(s.len() as int) == s@);
    r
}

/// The arithmetic mean.
pub fn mean(s: &Vec<Double>) -> (r: Double)
    ensures
        r == mean_of(s@),
{
    sum_numbers(s).div(Double::from_u64(s.len() as u64))
}

/// The standard deviation of a sample around its mean.
pub fn deviation(s: &Vec<Double>) -> (r: Double)
    ensures
        r == deviation_of(s@),
{
    if s.len() <= 1 {
        return Double::from_bits(0);
    }
    let mean: Double = mean(s);
    let mut squares: Vec<Double> = Vec::new();
    let mut i: usize = 0;
    while i < s.len()
        invariant
            i <= s.len(),
            mean == mean_of(s@),
            squares@ == squared_deviations(s@.take(i as int), mean),
        decreases s.len() - i,
    {
        let d: Double = s[i].sub(mean);
        squares.push(d.mul(d));
        assert(s@.take(i + 1) == s@.take(i as int).push(s@[i as int]));
        i = i + 1;
        assert(squares@ =~= squared_deviations(s@.take(i as int), mean));
    }
    assert(s@.take(s.len() as int) == s@);
    let n: Double = Double::from_u64(s.len() as u64);
    sum_numbers(&squares).div(n.sub(Double::from_u64(1))).sqrt()
}

/// The index of the nearest-rank percentile among `n` ordered values.
pub fn percentile_index(percent: u32, n: usize) -> (r: usize)
    requires
        n > 0,
    ensures
        r == rank_index(percent as int, n as int),
        r < n,
{
    assert(0 <= percent * n < 0x1_0000_0000 * 0x1_0000_0000_0000_0000) by (nonlinear_arith)
        requires
            0 <= percent < 0x1_0000_0000,
            0 < n < 0x1_0000_0000_0000_0000,
    ;
    let rank: u128 = (percent as u128 * n as u128 + 99) / 100;
    if rank < 1 {
        0
    } else if rank > n as u128 {
        n - 1
    } else {
        (rank - 1) as usize
    }
}

/// The aggregate of a metric over its samples, or nothing where no sample is a number.
pub fn aggregate(name: &str, samples: &[Double]) -> (r: Option<MetricAggregate>)
    ensures
        r is Some <==> kept(samples@).len() > 0,
        r matches Some(a) ==> aggregates(a, name@, samples@),
{
    let numbers = keep_numbers(samples);
    if numbers.len() == 0 {
        return None;
    }
    let s = sort_numbers(&numbers);
    let n: usize = s.len();
    Some(
        MetricAggregate {
            name: name.to_owned(),
            unit: BenchReport::unit_hint(name).to_owned(),
            higher_is_better: BenchReport::higher_is_better(name),
            min: s[0],
            p50: s[percentile_index(50, n)],
            p90: s[percentile_index(90, n)],
            p99: s[percentile_index(99, n)],
            max: s[n - 1],
            mean: mean(&s),
            stdev: deviation(&s),
            n,
        },
    )
}

/// Whether the numbers stand in increasing order.
pub open spec fn ascending(s: Seq<Double>) -> bool {
    forall|i: int, j: int|
        0 <= i <= j < s.len() ==> (#[trigger] s[i]).rank() <= (#[trigger] s[j]).rank()
}

proof fn lemma_placed(s: Seq<Double>, x: Double)
    requires
        ascending(s),
    ensures
        ascending(placed(s, x)),
        placed(s, x).to_multiset() == s.to_multiset().insert(x),
        placed(s, x).len() == s.len() + 1,
        forall|y: Double|
            placed(s, x).contains(y) ==> s.contains(y) || y == x,
    decreases s.len(),
{
    broadcast use vstd::seq_lib::group_to_multiset_ensures;

    let r = placed(s, x);
    if s.len() > 0 && x.rank() < s.last().rank() {
        let front = s.drop_last();
        let inner = placed(front, x);
        assert(ascending(front)) by {
            assert forall|i: int, j: int| 0 <= i <= j < front.len() implies (
            #[trigger] front[i]).rank() <= (#[trigger] front[j]).rank() by {
                assert(s[i].rank() <= s[j].rank());
            }
        }
        lemma_placed(front, x);
        assert(s == front.push(s.last()));
        assert(r.to_multiset() =~= s.to_multiset().insert(x));
        assert forall|y: Double| r.contains(y) implies s.contains(y) || y == x by {
            let k = choose|k: int| 0 <= k < r.len() && r[k] == y;
            if k < inner.len() {
                assert(inner.contains(y)) by {
                    assert(inner[k] == y);
                }
                if front.contains(y) {
                    let m = choose|m: int| 0 <= m < front.len() && front[m] == y;
                    assert(s[m] == y);
                }
            } else {
                assert(s[s.len() - 1] == y);
            }
        }
        assert forall|i: int, j: int| 0 <= i <= j < r.len() implies (#[trigger] r[i]).rank() <= (
        #[trigger] r[j]).rank() by {
            if j < inner.len() {
                assert(inner[i].rank() <= inner[j].rank());
            } else if i < inner.len() {
                assert(inner.contains(inner[i]));
                let y = inner[i];
                if front.contains(y) {
                    let m = choose|m: int| 0 <= m < front.len() && front[m] == y;
                    assert(s[m].rank() <= s[s.len() - 1].rank());
                }
            }
        }
    } else {
        assert forall|y: Double| r.contains(y) implies s.contains(y) || y == x by {
            let k = choose|k: int| 0 <= k < r.len() && r[k] == y;
            if k < s.len() {
                assert(s[k] == y);
            }
        }
        assert forall|i: int, j: int| 0 <= i <= j < r.len() implies (#[trigger] r[i]).rank() <= (
        #[trigger] r[j]).rank() by {
            if s.len() > 0 && j == s.len() && i < s.len() {
                assert(s[i].rank() <= s[s.len() - 1].rank());
            } else if j < s.len() {
                assert(s[i].rank() <= s[j].rank());
            }
        }
    }
}

/// Ordering the numbers moves them and does nothing else.
pub proof fn law_order_keeps_numbers(s: Seq<Double>)
    ensures
        ascending(in_order(s)),
        in_order(s).to_multiset() == s.to_multiset(),
        in_order(s).len() == s.len(),
    decreases s.len(),
{
    broadcast use vstd::seq_lib::group_to_multiset_ensures;

    if s.len() > 0 {
        law_order_keeps_numbers(s.drop_last());
        lemma_placed(in_order(s.drop_last()), s.last());
        assert(s == s.drop_last().push(s.last()));
    } else {
        assert(in_order(s) == s);
    }
}

proof fn lemma_kept_from_samples(samples: Seq<Double>, x: Double)
    requires
        kept(samples).contains(x),
    ensures
        samples.contains(x),
        !x.nan(),
    decreases samples.len(),
{
    let k = choose|k: int| 0 <= k < kept(samples).len() && kept(samples)[k] == x;
    if samples.len() > 0 {
        let front = samples.drop_last();
        if k < kept(front).len() {
            assert(kept(front)[k] == x);
            lemma_kept_from_samples(front, x);
            let m = choose|m: int| 0 <= m < front.len() && front[m] == x;
            assert(samples[m] == x);
        } else {
            assert(samples[samples.len() - 1] == x);
        }
    }
}

proof fn lemma_ordered_from_samples(samples: Seq<Double>, i: int)
    requires
        0 <= i < in_order(kept(samples)).len(),
    ensures
        samples.contains(in_order(kept(samples))[i]),
        !in_order(kept(samples))[i].nan(),
{
    broadcast use vstd::seq_lib::group_to_multiset_ensures;

    let s = kept(samples);
    let x = in_order(s)[i];
    law_order_keeps_numbers(s);
    assert(in_order(s).contains(x));
    assert(in_order(s).to_multiset().count(x) > 0);
    assert(s.contains(x));
    lemma_kept_from_samples(samples, x);
}

/// Every percentile of an aggregate, and its minimum and maximum, is a sample that was observed.
pub proof fn law_percentiles_are_observed(a: MetricAggregate, name: Seq<char>, samples: Seq<Double>)
    requires
        kept(samples).len() > 0,
        aggregates(a, name, samples),
    ensures
        samples.contains(a.min) && !a.min.nan(),
        samples.contains(a.p50) && !a.p50.nan(),
        samples.contains(a.p90) && !a.p90.nan(),
        samples.contains(a.p99) && !a.p99.nan(),
        samples.contains(a.max) && !a.max.nan(),
{
    let n = in_order(kept(samples)).len() as int;
    law_order_keeps_numbers(kept(samples));
    lemma_ordered_from_samples(samples, 0);
    lemma_ordered_from_samples(samples, rank_index(50, n));
    lemma_ordered_from_samples(samples, rank_index(90, n));
    lemma_ordered_from_samples(samples, rank_index(99, n));
    lemma_ordered_from_samples(samples, n - 1);
}

/// The statistics of an aggregate ascend from the minimum through the percentiles to the
/// maximum, and no number among the samples lies outside that range.
pub proof fn law_percentiles_ascend(a: MetricAggregate, name: Seq<char>, samples: Seq<Double>)
    requires
        kept(samples).len() > 0,
        aggregates(a, name, samples),
    ensures
        a.min.rank() <= a.p50.rank() <= a.p90.rank() <= a.p99.rank() <= a.max.rank(),
        forall|x: Double|
            kept(samples).contains(x) ==> a.min.rank() <= #[trigger] x.rank() <= a.max.rank(),
{
    broadcast use vstd::seq_lib::group_to_multiset_ensures;

    let k = kept(samples);
    let s = in_order(k);
    let n = s.len() as int;
    law_order_keeps_numbers(k);
    assert(s[0].rank() <= s[rank_index(50, n)].rank());
    assert(s[rank_index(50, n)].rank() <= s[rank_index(90, n)].rank());
    assert(s[rank_index(90, n)].rank() <= s[rank_index(99, n)].rank());
    assert(s[rank_index(99, n)].rank() <= s[n - 1].rank());
    assert forall|x: Double| k.contains(x) implies a.min.rank() <= #[trigger] x.rank()
        <= a.max.rank() by {
        assert(k.to_multiset().count(x) > 0);
        assert(s.to_multiset().count(x) > 0);
        assert(s.contains(x));
        let i = choose|i: int| 0 <= i < s.len() && s[i] == x;
        assert(s[0].rank() <= s[i].rank());
        assert(s[i].rank() <= s[n - 1].rank());
    }
}

/// The rank of a percentile, one more than its index, is the smallest that covers `percent` per
/// cent of `n` ordered numbers.
pub proof fn law_nearest_rank(percent: int, n: int)
    requires
        0 < percent <= 100,
        n > 0,
    ensures
        0 <= rank_index(percent, n) < n,
        100 * (rank_index(percent, n) + 1) >= percent * n,
        100 * rank_index(percent, n) < percent * n,
{
    assert(percent * n >= n && percent * n <= 100 * n) by (nonlinear_arith)
        requires
            0 < percent <= 100,
            n > 0,
    ;
}

/// A single sample is every percentile of its aggregate and the mean, with no deviation.
pub proof fn law_single_sample(a: MetricAggregate, name: Seq<char>, x: Double)
    requires
        !x.nan(),
        aggregates(a, name, seq![x]),
    ensures
        a.min == x,
        a.p50 == x,
        a.p90 == x,
        a.p99 == x,
        a.max == x,
        a.mean == x,
        a.stdev == Double::of(false, 0),
        a.n == 1,
{
    let one = seq![x];
    let none = Seq::<Double>::empty();
    assert(one.drop_last() == none);
    assert(kept(none) == none);
    assert(kept(one) == one);
    assert(in_order(none) == none);
    assert(placed(none, x) == one);
    assert(in_order(one) == one);
    assert(total(none) == Double::of(true, 0));
    assert(total(one) == total(none).plus(x));
    lemma_negative_zero_plus(x);
    lemma_over_one(x);
}

/// The samples that are numbers are kept as often as they occur.
pub proof fn law_numbers_are_kept(samples: Seq<Double>)
    ensures
        kept(samples).to_multiset() == samples.to_multiset().filter(|x: Double| !x.nan()),
    decreases samples.len(),
{
    broadcast use vstd::seq_lib::group_to_multiset_ensures;

    let f = |x: Double| !x.nan();
    if samples.len() > 0 {
        let front = samples.drop_last();
        law_numbers_are_kept(front);
        assert(samples == front.push(samples.last()));
        assert(kept(samples).to_multiset() =~= samples.to_multiset().filter(f));
    } else {
        assert(kept(samples).to_multiset() =~= samples.to_multiset().filter(f));
    }
}

spec fn ranks(s: Seq<Double>) -> Seq<int> {
    s.map_values(|x: Double| x.rank())
}

proof fn lemma_ranks_multiset(s: Seq<Double>, t: Seq<Double>)
    requires
        s.to_multiset() == t.to_multiset(),
    ensures
        ranks(s).to_multiset() == ranks(t).to_multiset(),
    decreases s.len(),
{
    broadcast use vstd::seq_lib::group_to_multiset_ensures;

    assert(s.len() == s.to_multiset().len() && t.len() == t.to_multiset().len());
    if s.len() == 0 {
        assert(ranks(s) =~= ranks(t));
    } else {
        let x = s.last();
        let front = s.drop_last();
        assert(s == front.push(x));
        assert(t.to_multiset().count(x) > 0);
        assert(t.contains(x));
        let j = choose|j: int| 0 <= j < t.len() && t[j] == x;
        let rest = t.remove(j);
        assert(rest.to_multiset() =~= front.to_multiset());
        lemma_ranks_multiset(front, rest);
        assert(ranks(s) =~= ranks(front).push(x.rank()));
        assert(ranks(t) =~= ranks(rest).insert(j, x.rank()));
    }
}

/// Whether two sequences hold the same numbers in the same order, but for the signs of zeros.
pub open spec fn all_alike(s: Seq<Double>, t: Seq<Double>) -> bool {
    &&& s.len() == t.len()
    &&& forall|i: int| 0 <= i < s.len() ==> (#[trigger] s[i]).alike(t[i])
}

proof fn lemma_in_order_alike(s: Seq<Double>, t: Seq<Double>)
    requires
        s.to_multiset() == t.to_multiset(),
    ensures
        all_alike(in_order(s), in_order(t)),
{
    let (p, q) = (in_order(s), in_order(t));
    let leq = |a: int, b: int| a <= b;
    law_order_keeps_numbers(s);
    law_order_keeps_numbers(t);
    lemma_ranks_multiset(p, q);
    assert(vstd::relations::sorted_by(ranks(p), leq));
    assert(vstd::relations::sorted_by(ranks(q), leq));
    vstd::seq_lib::lemma_sorted_unique(ranks(p), ranks(q), leq);
    assert(p.len() == ranks(p).len() && q.len() == ranks(q).len());
    assert forall|i: int| 0 <= i < p.len() implies (#[trigger] p[i]).alike(q[i]) by {
        assert(ranks(p)[i] == p[i].rank());
        assert(ranks(q)[i] == q[i].rank());
        lemma_same_rank(p[i], q[i]);
    }
}

proof fn lemma_total_alike(s: Seq<Double>, t: Seq<Double>)
    requires
        all_alike(s, t),
    ensures
        total(s).alike(total(t)),
    decreases s.len(),
{
    if s.len() > 0 {
        let (p, q) = (s.drop_last(), t.drop_last());
        assert forall|i: int| 0 <= i < p.len() implies (#[trigger] p[i]).alike(q[i]) by {
            assert(s[i].alike(t[i]));
        }
        lemma_total_alike(p, q);
        assert(s[s.len() - 1].alike(t[t.len() - 1]));
        lemma_alike_plus(total(p), total(q), s.last(), t.last());
    }
}

proof fn lemma_deviation_alike(s: Seq<Double>, t: Seq<Double>)
    requires
        all_alike(s, t),
    ensures
        mean_of(s).alike(mean_of(t)),
        deviation_of(s).alike(deviation_of(t)),
{
    let n = Double::integer(s.len() as int);
    let (a, b) = (mean_of(s), mean_of(t));
    lemma_total_alike(s, t);
    lemma_alike_over(total(s), total(t), n);
    let (p, q) = (squared_deviations(s, a), squared_deviations(t, b));
    assert forall|i: int| 0 <= i < p.len() implies (#[trigger] p[i]).alike(q[i]) by {
        assert(s[i].alike(t[i]));
        let (d, e) = (s[i].minus(a), t[i].minus(b));
        lemma_alike_minus(s[i], t[i], a, b);
        lemma_alike_times(d, e, d, e);
    }
    lemma_total_alike(p, q);
    lemma_alike_over(total(p), total(q), n.minus(Double::integer(1)));
}

/// Whether two aggregates say the same, but for the signs of zeros.
pub open spec fn aggregates_alike(a: MetricAggregate, b: MetricAggregate) -> bool {
    &&& a.name@ == b.name@
    &&& a.unit@ == b.unit@
    &&& a.higher_is_better == b.higher_is_better
    &&& a.min.alike(b.min)
    &&& a.p50.alike(b.p50)
    &&& a.p90.alike(b.p90)
    &&& a.p99.alike(b.p99)
    &&& a.max.alike(b.max)
    &&& a.mean.alike(b.mean)
    &&& a.stdev.alike(b.stdev)
    &&& a.n == b.n
}

/// An aggregate depends neither on the order of its samples nor on NaNs among them: the same
/// numbers give the same aggregate, or both times none. Where the numbers hold zeros of both
/// signs, the statistics are the same as numbers, in which the sign of a zero does not count.
pub proof fn law_order_does_not_matter(
    a: MetricAggregate,
    b: MetricAggregate,
    name: Seq<char>,
    s: Seq<Double>,
    t: Seq<Double>,
)
    requires
        kept(s).to_multiset() == kept(t).to_multiset(),
        kept(s).len() > 0 ==> aggregates(a, name, s),
        kept(t).len() > 0 ==> aggregates(b, name, t),
    ensures
        kept(s).len() == kept(t).len(),
        kept(s).len() > 0 ==> aggregates_alike(a, b),
{
    broadcast use vstd::seq_lib::group_to_multiset_ensures;

    assert(kept(s).len() == kept(s).to_multiset().len());
    assert(kept(t).len() == kept(t).to_multiset().len());
    if kept(s).len() > 0 {
        let (p, q) = (in_order(kept(s)), in_order(kept(t)));
        let n = p.len() as int;
        law_order_keeps_numbers(kept(s));
        lemma_in_order_alike(kept(s), kept(t));
        lemma_deviation_alike(p, q);
        law_nearest_rank(50, n);
        law_nearest_rank(90, n);
        law_nearest_rank(99, n);
        assert(p[0].alike(q[0]));
        assert(p[rank_index(50, n)].alike(q[rank_index(50, n)]));
        assert(p[rank_index(90, n)].alike(q[rank_index(90, n)]));
        assert(p[rank_index(99, n)].alike(q[rank_index(99, n)]));
        assert(p[n - 1].alike(q[n - 1]));
    }
}

/// Numbers that do not hold zeros of both signs have one order, so that their aggregate is the
/// same in every bit however the samples are arranged.
pub proof fn law_order_is_unique(s: Seq<Double>, t: Seq<Double>)
    requires
        kept(s).to_multiset() == kept(t).to_multiset(),
        !(kept(s).contains(Double::of(false, 0)) && kept(s).contains(Double::of(true, 0))),
    ensures
        in_order(kept(s)) == in_order(kept(t)),
        forall|a: MetricAggregate, name: Seq<char>|
            aggregates(a, name, s) <==> aggregates(a, name, t),
{
    broadcast use vstd::seq_lib::group_to_multiset_ensures;

    let k = kept(s);
    let (p, q) = (in_order(k), in_order(kept(t)));
    law_order_keeps_numbers(k);
    law_order_keeps_numbers(kept(t));
    lemma_in_order_alike(k, kept(t));
    assert forall|i: int| 0 <= i < p.len() implies p[i] == q[i] by {
        assert(p[i].alike(q[i]));
        assert(p.to_multiset().count(p[i]) > 0);
        assert(q.to_multiset().count(q[i]) > 0);
        assert(k.to_multiset().count(p[i]) > 0);
        assert(k.to_multiset().count(q[i]) > 0);
        assert(k.contains(p[i]) && k.contains(q[i]));
        if p[i] != q[i] {
            assert(p[i] == Double::of(false, 0) || p[i] == Double::of(true, 0));
            assert(q[i] == Double::of(false, 0) || q[i] == Double::of(true, 0));
        }
    }
    assert(p =~= q);
}

} // verus!
