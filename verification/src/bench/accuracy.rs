//! What an aggregate tells about its samples, in exact arithmetic.

use crate::bench::report::MetricAggregate;
use crate::bench::stats::{
    aggregates, ascending, deviation_of, in_order, kept, law_nearest_rank, law_order_keeps_numbers,
    mean_of, percentile_of, placed, rank_index, squared_deviations, total,
};
use crate::number::double::Double;
use crate::number::error::{
    distance, law_difference_is_rounded, law_product_is_rounded, law_quotient_is_rounded,
    law_root_is_rounded, law_sum_is_rounded, size,
};
use crate::number::laws::{
    law_integers_are_exact, lemma_nearest_sign, lemma_negative_zero_plus, lemma_units_not_negative,
    lemma_units_zero,
};
use crate::number::rounding::{lemma_large_powers, units};
use vstd::arithmetic::power2::{
    lemma_pow2_adds, lemma_pow2_pos, lemma_pow2_strictly_increases, lemma_pow2_unfold, pow2,
};
use vstd::prelude::*;

verus! {

/// The exact sum of the numbers, in units of `2^-1074`.
pub open spec fn exact_sum(s: Seq<Double>) -> int
    decreases s.len(),
{
    if s.len() == 0 {
        0
    } else {
        exact_sum(s.drop_last()) + s.last().value()
    }
}

/// The exact sum of their magnitudes, in the same units.
pub open spec fn exact_sizes(s: Seq<Double>) -> int
    decreases s.len(),
{
    if s.len() == 0 {
        0
    } else {
        exact_sizes(s.drop_last()) + size(s.last().value())
    }
}

pub open spec fn all_finite(s: Seq<Double>) -> bool {
    forall|i: int| 0 <= i < s.len() ==> (#[trigger] s[i]).finite()
}

/// How many of the numbers are at most `x`.
pub open spec fn at_most(s: Seq<Double>, x: Double) -> int
    decreases s.len(),
{
    if s.len() == 0 {
        0
    } else {
        at_most(s.drop_last(), x) + if s.last().rank() <= x.rank() {
            1int
        } else {
            0
        }
    }
}

/// How many of the numbers are less than `x`.
pub open spec fn below(s: Seq<Double>, x: Double) -> int
    decreases s.len(),
{
    if s.len() == 0 {
        0
    } else {
        below(s.drop_last(), x) + if s.last().rank() < x.rank() {
            1int
        } else {
            0
        }
    }
}

proof fn lemma_placed_sums(s: Seq<Double>, x: Double, y: Double)
    ensures
        exact_sum(placed(s, x)) == exact_sum(s) + x.value(),
        exact_sizes(placed(s, x)) == exact_sizes(s) + size(x.value()),
        at_most(placed(s, x), y) == at_most(s, y) + if x.rank() <= y.rank() {
            1int
        } else {
            0
        },
        below(placed(s, x), y) == below(s, y) + if x.rank() < y.rank() {
            1int
        } else {
            0
        },
    decreases s.len(),
{
    if s.len() > 0 && x.rank() < s.last().rank() {
        let inner = placed(s.drop_last(), x);
        lemma_placed_sums(s.drop_last(), x, y);
        assert(placed(s, x) == inner.push(s.last()));
        assert(inner.push(s.last()).drop_last() =~= inner);
    } else {
        assert(s.push(x).drop_last() =~= s);
    }
}

proof fn lemma_order_sums(s: Seq<Double>, y: Double)
    ensures
        exact_sum(in_order(s)) == exact_sum(s),
        exact_sizes(in_order(s)) == exact_sizes(s),
        at_most(in_order(s), y) == at_most(s, y),
        below(in_order(s), y) == below(s, y),
    decreases s.len(),
{
    if s.len() > 0 {
        lemma_order_sums(s.drop_last(), y);
        lemma_placed_sums(in_order(s.drop_last()), s.last(), y);
    }
}

proof fn lemma_order_finite(s: Seq<Double>)
    requires
        all_finite(s),
    ensures
        all_finite(in_order(s)),
{
    broadcast use vstd::seq_lib::group_to_multiset_ensures;

    law_order_keeps_numbers(s);
    let p = in_order(s);
    assert forall|i: int| 0 <= i < p.len() implies (#[trigger] p[i]).finite() by {
        assert(p.to_multiset().count(p[i]) > 0);
        assert(s.contains(p[i]));
        let k = choose|k: int| 0 <= k < s.len() && s[k] == p[i];
        assert(s[k].finite());
    }
}

proof fn lemma_sizes(s: Seq<Double>)
    ensures
        size(exact_sum(s)) <= exact_sizes(s),
        exact_sizes(s) >= 0,
    decreases s.len(),
{
    if s.len() > 0 {
        lemma_sizes(s.drop_last());
    }
}

/// Adding up `n` numbers one after another is off by at most `n - 1` parts in `2^52` of the sum of
/// their magnitudes.
pub proof fn law_total_is_exact(s: Seq<Double>)
    requires
        0 < s.len() <= 0x10_0000_0000_0000,
        all_finite(s),
        exact_sizes(s) <= pow2(2096),
    ensures
        total(s).finite(),
        0x10_0000_0000_0000 * distance(total(s).value(), exact_sum(s)) <= (s.len() - 1)
            * exact_sizes(s),
    decreases s.len(),
{
    let c: int = 0x10_0000_0000_0000;
    let n = s.len() as int;
    let front = s.drop_last();
    let x = s.last();
    assert(s[n - 1].finite());
    assert forall|i: int| 0 <= i < front.len() implies (#[trigger] front[i]).finite() by {
        assert(s[i].finite());
    }
    lemma_sizes(s);
    lemma_sizes(front);
    if n == 1 {
        assert(total(front) == Double::of(true, 0));
        lemma_negative_zero_plus(x);
        assert(exact_sum(front) == 0);
        assert((n - 1) * exact_sizes(s) == 0) by (nonlinear_arith)
            requires
                n == 1,
        ;
    } else {
        law_total_is_exact(front);
        lemma_pow2_unfold(2097);
        let t = total(front).value();
        let (a, b) = (exact_sizes(front), exact_sizes(s));
        let e = distance(t, exact_sum(front));
        assert(e <= a) by (nonlinear_arith)
            requires
                c * e <= (n - 2) * a,
                n - 2 <= c,
                n >= 2,
                a >= 0,
                c == 0x10_0000_0000_0000,
        ;
        law_sum_is_rounded(total(front), x);
        let r = distance(total(s).value(), t + x.value());
        assert((n - 2) * a + b <= (n - 1) * b) by (nonlinear_arith)
            requires
                n >= 2,
                0 <= a <= b,
        ;
        assert(2 * c * r <= 2 * b);
    }
}

/// The mean of numbers: multiplied by their count it is their exact sum, but for `n` parts in
/// `2^52` of the sum of their magnitudes and `n` halves of the smallest positive number.
pub proof fn lemma_mean_is_exact(s: Seq<Double>)
    requires
        0 < s.len() <= 0x10_0000_0000_0000,
        all_finite(s),
        exact_sizes(s) <= pow2(2096),
    ensures
        mean_of(s).finite(),
        0x10_0000_0000_0000 * distance(mean_of(s).value() * s.len(), exact_sum(s)) <= s.len()
            * exact_sizes(s) + 0x8_0000_0000_0000 * s.len(),
{
    let c: int = 0x10_0000_0000_0000;
    let n = s.len() as int;
    let u = pow2(1074) as int;
    let b = exact_sizes(s);
    let t = total(s).value();
    law_total_is_exact(s);
    lemma_sizes(s);
    lemma_pow2_pos(1074);
    lemma_pow2_unfold(2097);
    law_integers_are_exact(n);
    let e = distance(t, exact_sum(s));
    assert(e <= b) by (nonlinear_arith)
        requires
            c * e <= (n - 1) * b,
            1 <= n <= c,
            b >= 0,
            c == 0x10_0000_0000_0000,
    ;
    assert(size(t) <= 2 * b);
    let d = n * u;
    assert(d > 0) by (nonlinear_arith)
        requires
            d == n * u,
            n > 0,
            u > 0,
    ;
    let w = pow2(2097) as int;
    assert(size(t) * u <= w * d) by (nonlinear_arith)
        requires
            0 <= size(t) <= w,
            d == n * u,
            n >= 1,
            u > 0,
    ;
    law_quotient_is_rounded(total(s), Double::integer(n));
    let m = mean_of(s).value();
    let f = distance(m * n, t);
    assert(m * d == (m * n) * u) by (nonlinear_arith)
        requires
            d == n * u,
    ;
    lemma_distance_scales(m * n, t, u);
    if 2 * c * (f * u) <= size(t) * u {
        assert(2 * c * f <= size(t)) by (nonlinear_arith)
            requires
                2 * c * (f * u) <= size(t) * u,
                u > 0,
        ;
    } else {
        assert(2 * f <= n) by (nonlinear_arith)
            requires
                2 * (f * u) <= n * u,
                u > 0,
        ;
    }
    assert((n - 1) * b + b == n * b) by (nonlinear_arith);
    assert(n * b >= 0) by (nonlinear_arith)
        requires
            n > 0,
            b >= 0,
    ;
}

proof fn lemma_distance_scales(a: int, b: int, u: int)
    requires
        u > 0,
    ensures
        distance(a * u, b * u) == distance(a, b) * u,
{
    assert(a * u - b * u == (a - b) * u) by (nonlinear_arith);
    assert(b * u - a * u == (b - a) * u) by (nonlinear_arith);
    assert((a < b) == (a * u < b * u)) by (nonlinear_arith)
        requires
            u > 0,
    ;
}

/// The mean of an aggregate is the exact sum of the samples that are numbers, divided by how many
/// there are: every one of them has the same weight. Multiplied by their number, the mean is off
/// the exact sum by at most `n` parts in `2^52` of the sum of their magnitudes, and `n` halves of
/// the smallest positive number.
pub proof fn law_mean_is_exact(a: MetricAggregate, name: Seq<char>, samples: Seq<Double>)
    requires
        aggregates(a, name, samples),
        0 < kept(samples).len() <= 0x10_0000_0000_0000,
        all_finite(kept(samples)),
        exact_sizes(kept(samples)) <= pow2(2096),
    ensures
        a.mean.finite(),
        ({
            let s = kept(samples);
            0x10_0000_0000_0000 * distance(a.mean.value() * s.len(), exact_sum(s)) <= s.len()
                * exact_sizes(s) + 0x8_0000_0000_0000 * s.len()
        }),
{
    let s = kept(samples);
    law_order_keeps_numbers(s);
    lemma_order_sums(s, a.mean);
    lemma_order_finite(s);
    lemma_mean_is_exact(in_order(s));
}

proof fn lemma_count_bounds(s: Seq<Double>, x: Double)
    ensures
        0 <= below(s, x) <= at_most(s, x) <= s.len(),
        (forall|i: int| 0 <= i < s.len() ==> (#[trigger] s[i]).rank() <= x.rank()) ==> at_most(s, x)
            == s.len(),
    decreases s.len(),
{
    if s.len() > 0 {
        let front = s.drop_last();
        lemma_count_bounds(front, x);
        if forall|i: int| 0 <= i < s.len() ==> (#[trigger] s[i]).rank() <= x.rank() {
            assert forall|i: int| 0 <= i < front.len() implies (#[trigger] front[i]).rank()
                <= x.rank() by {
                assert(s[i].rank() <= x.rank());
            }
            assert(s[s.len() - 1].rank() <= x.rank());
        }
    }
}

proof fn lemma_counts(p: Seq<Double>, i: int)
    requires
        ascending(p),
        0 <= i < p.len(),
    ensures
        at_most(p, p[i]) >= i + 1,
        below(p, p[i]) <= i,
    decreases p.len(),
{
    let front = p.drop_last();
    lemma_count_bounds(p, p[i]);
    lemma_count_bounds(front, p[i]);
    assert(p[i].rank() <= p[p.len() - 1].rank());
    if i == p.len() - 1 {
        assert forall|k: int| 0 <= k < p.len() implies (#[trigger] p[k]).rank() <= p[i].rank() by {
            assert(p[k].rank() <= p[i].rank());
        }
    } else {
        assert forall|k: int, m: int| 0 <= k <= m < front.len() implies (#[trigger] front[k]).rank()
            <= (#[trigger] front[m]).rank() by {
            assert(p[k].rank() <= p[m].rank());
        }
        lemma_counts(front, i);
    }
}

/// Whether at least `percent` per cent of the numbers are at most `x`, and fewer are less.
pub open spec fn cuts(s: Seq<Double>, x: Double, percent: int) -> bool {
    &&& 100 * at_most(s, x) >= percent * s.len()
    &&& 100 * below(s, x) < percent * s.len()
}

proof fn lemma_cuts(s: Seq<Double>, percent: int)
    requires
        s.len() > 0,
        0 < percent <= 100,
    ensures
        cuts(s, in_order(s)[rank_index(percent, s.len() as int)], percent),
{
    let n = s.len() as int;
    let p = in_order(s);
    let i = rank_index(percent, n);
    law_order_keeps_numbers(s);
    law_nearest_rank(percent, n);
    lemma_counts(p, i);
    lemma_order_sums(s, p[i]);
}

/// Each percentile of an aggregate cuts the samples where its name says: at least 50, 90 or 99 per
/// cent of the numbers are at most the percentile, and fewer than that lie below it.
pub proof fn law_percentiles_cut(a: MetricAggregate, name: Seq<char>, samples: Seq<Double>)
    requires
        aggregates(a, name, samples),
        kept(samples).len() > 0,
    ensures
        cuts(kept(samples), a.p50, 50),
        cuts(kept(samples), a.p90, 90),
        cuts(kept(samples), a.p99, 99),
        a.n == kept(samples).len(),
{
    let s = kept(samples);
    law_order_keeps_numbers(s);
    lemma_cuts(s, 50);
    lemma_cuts(s, 90);
    lemma_cuts(s, 99);
}

/// The exact sum of the squared distances from `m`, in units of `2^-2148`.
pub open spec fn exact_squares(s: Seq<Double>, m: int) -> int
    decreases s.len(),
{
    if s.len() == 0 {
        0
    } else {
        exact_squares(s.drop_last(), m) + (s.last().value() - m) * (s.last().value() - m)
    }
}

proof fn lemma_placed_squares(s: Seq<Double>, x: Double, m: int)
    ensures
        exact_squares(placed(s, x), m) == exact_squares(s, m) + (x.value() - m) * (x.value() - m),
    decreases s.len(),
{
    if s.len() > 0 && x.rank() < s.last().rank() {
        let inner = placed(s.drop_last(), x);
        lemma_placed_squares(s.drop_last(), x, m);
        assert(placed(s, x) == inner.push(s.last()));
        assert(inner.push(s.last()).drop_last() =~= inner);
    } else {
        assert(s.push(x).drop_last() =~= s);
    }
}

proof fn lemma_order_squares(s: Seq<Double>, m: int)
    ensures
        exact_squares(in_order(s), m) == exact_squares(s, m),
    decreases s.len(),
{
    if s.len() > 0 {
        lemma_order_squares(s.drop_last(), m);
        lemma_placed_squares(in_order(s.drop_last()), s.last(), m);
    }
}

/// The square of a distance that was computed is off by at most five parts in `2^53`, and half a
/// unit.
proof fn lemma_squared_distance(x: Double, mean: Double)
    requires
        x.finite(),
        mean.finite(),
        (x.value() - mean.value()) * (x.value() - mean.value()) <= pow2(3168),
    ensures
        ({
            let p = x.minus(mean).times(x.minus(mean));
            let d = x.value() - mean.value();
            &&& p.finite()
            &&& p.value() >= 0
            &&& 0x20_0000_0000_0000 * distance(p.value() * pow2(1074), d * d) <= 5 * (d * d)
                + 0x10_0000_0000_0000 * pow2(1074)
        }),
{
    let c: int = 0x20_0000_0000_0000;
    let u = pow2(1074) as int;
    let w = pow2(1584) as int;
    let d = x.value() - mean.value();
    let b = x.minus(mean);
    lemma_pow2_adds(1584, 1584);
    lemma_pow2_pos(1584);
    lemma_pow2_pos(1074);
    lemma_pow2_strictly_increases(1584, 2097);
    assert(size(d) <= w) by (nonlinear_arith)
        requires
            d * d <= w * w,
            w > 0,
    ;
    law_difference_is_rounded(x, mean);
    let v = b.value();
    let e = distance(v, d);
    assert(size(d) * size(d) == d * d) by (nonlinear_arith);
    assert(size(v) * size(v) == v * v) by (nonlinear_arith);
    assert(c * distance(v * v, d * d) <= 3 * (d * d)) by (nonlinear_arith)
        requires
            c * distance(v, d) <= size(d),
            c == 0x20_0000_0000_0000,
    ;
    assert(d * d >= 0) by (nonlinear_arith);
    assert(v * v <= 2 * (d * d));
    lemma_pow2_adds(2097, 1074);
    lemma_pow2_unfold(3169);
    lemma_pow2_strictly_increases(3169, 3171);
    law_product_is_rounded(b, b);
    let p = b.times(b);
    let m = units(b.magnitude(), 53);
    assert(m * m >= 0) by (nonlinear_arith);
    lemma_nearest_sign(false, m * m, u);
    lemma_units_not_negative(p.magnitude());
    let f = distance(p.value() * u, v * v);
    assert(c * f <= 2 * (d * d) + 0x10_0000_0000_0000 * u) by (nonlinear_arith)
        requires
            c * f <= v * v || 2 * f <= u,
            v * v <= 2 * (d * d),
            d * d >= 0,
            u > 0,
            c == 0x20_0000_0000_0000,
    ;
    assert(distance(p.value() * u, d * d) <= f + distance(v * v, d * d));
}

/// The squared distances that were computed are numbers that are not negative, and their exact sum
/// is off by at most five parts in `2^53`, and half a unit for each.
proof fn lemma_squares_sum(s: Seq<Double>, mean: Double)
    requires
        all_finite(s),
        mean.finite(),
        exact_squares(s, mean.value()) <= pow2(3168),
    ensures
        all_finite(squared_deviations(s, mean)),
        exact_sizes(squared_deviations(s, mean)) == exact_sum(squared_deviations(s, mean)),
        exact_squares(s, mean.value()) >= 0,
        0x20_0000_0000_0000 * distance(
            exact_sum(squared_deviations(s, mean)) * pow2(1074),
            exact_squares(s, mean.value()),
        ) <= 5 * exact_squares(s, mean.value()) + s.len() * (0x10_0000_0000_0000 * pow2(1074)),
    decreases s.len(),
{
    let c: int = 0x20_0000_0000_0000;
    let u = pow2(1074) as int;
    let m = mean.value();
    let q = squared_deviations(s, mean);
    lemma_pow2_pos(1074);
    if s.len() > 0 {
        let front = s.drop_last();
        let x = s.last();
        let d = x.value() - m;
        assert forall|i: int| 0 <= i < front.len() implies (#[trigger] front[i]).finite() by {
            assert(s[i].finite());
        }
        assert(s[s.len() - 1].finite());
        assert(d * d >= 0) by (nonlinear_arith);
        lemma_squares_are_not_negative(front, m);
        lemma_squares_sum(front, mean);
        lemma_squared_distance(x, mean);
        let r = squared_deviations(front, mean);
        let p = x.minus(mean).times(x.minus(mean));
        assert(q.drop_last() =~= r);
        assert(q.last() == p);
        assert forall|i: int| 0 <= i < q.len() implies (#[trigger] q[i]).finite() by {
            if i < r.len() {
                assert(q[i] == r[i]);
            }
        }
        let k = 0x10_0000_0000_0000 * u;
        assert((s.len() - 1) * k + k == s.len() * k) by (nonlinear_arith);
        assert((exact_sum(r) + p.value()) * u == exact_sum(r) * u + p.value() * u)
            by (nonlinear_arith);
    } else {
        assert(q.len() == 0);
        assert(0 * u == 0);
        assert(s.len() * (0x10_0000_0000_0000 * u) == 0) by (nonlinear_arith)
            requires
                s.len() == 0,
        ;
    }
}

proof fn lemma_squares_are_not_negative(s: Seq<Double>, m: int)
    ensures
        exact_squares(s, m) >= 0,
    decreases s.len(),
{
    if s.len() > 0 {
        let d = s.last().value() - m;
        lemma_squares_are_not_negative(s.drop_last(), m);
        assert(d * d >= 0) by (nonlinear_arith);
    }
}

/// What `c * |r * r - n|` is at most where `r` is the root of `n`, rounded once.
proof fn lemma_root_squared(r: int, n: int)
    requires
        ({
            let c: int = 0x20_0000_0000_0000;
            &&& ((c - 1) * (c - 1)) * (r * r) <= (c * c) * n
            &&& (c * c) * n <= ((c + 1) * (c + 1)) * (r * r)
        }),
        n >= 0,
    ensures
        0x20_0000_0000_0000 * distance(r * r, n) <= 3 * n,
{
    let c: int = 0x20_0000_0000_0000;
    let q = r * r;
    let (x, y, z) = ((c - 1) * (c - 1), c * c, (c + 1) * (c + 1));
    if q >= n {
        assert(c * y <= (c + 3) * x) by (nonlinear_arith)
            requires
                x == (c - 1) * (c - 1),
                y == c * c,
                c >= 10,
        ;
        assert(c * q <= (c + 3) * n) by (nonlinear_arith)
            requires
                x * q <= y * n,
                c * y <= (c + 3) * x,
                x > 0,
                c > 0,
                n >= 0,
        ;
    } else {
        assert((c - 3) * z <= c * y) by (nonlinear_arith)
            requires
                z == (c + 1) * (c + 1),
                y == c * c,
                c >= 10,
        ;
        assert((c - 3) * n <= c * q) by (nonlinear_arith)
            requires
                y * n <= z * q,
                (c - 3) * z <= c * y,
                z > 0,
                c > 0,
                n >= 0,
        ;
    }
}

/// The deviation of numbers from their mean: its square, times one less than their count, is the
/// exact sum of their squared distances from the mean, but for `4 n + 9` parts in `2^53` of that
/// sum and three times as many units as there are numbers.
pub proof fn lemma_deviation_is_exact(s: Seq<Double>)
    requires
        1 < s.len() <= 0x4_0000_0000_0000,
        all_finite(s),
        mean_of(s).finite(),
        exact_squares(s, mean_of(s).value()) <= pow2(3168),
    ensures
        deviation_of(s).finite(),
        deviation_of(s).value() >= 0,
        ({
            let r = deviation_of(s).value();
            let e = exact_squares(s, mean_of(s).value());
            let n = s.len() as int;
            0x20_0000_0000_0000 * distance((r * r) * (n - 1), e) <= (4 * n + 9) * e
                + 0x60_0000_0000_0000 * (n * pow2(1074))
        }),
{
    let c: int = 0x20_0000_0000_0000;
    let n = s.len() as int;
    let u = pow2(1074) as int;
    let mean = mean_of(s);
    let q = squared_deviations(s, mean);
    let e = exact_squares(s, mean.value());
    let p = exact_sum(q);
    let k = 0x10_0000_0000_0000 * u;
    lemma_pow2_pos(1074);
    lemma_squares_sum(s, mean);
    lemma_sizes(q);
    let nu = n * u;
    assert(nu > 0) by (nonlinear_arith)
        requires
            nu == n * u,
            n > 0,
            u > 0,
    ;
    assert(n * k == 0x10_0000_0000_0000 * nu) by (nonlinear_arith)
        requires
            k == 0x10_0000_0000_0000 * u,
            nu == n * u,
    ;
    assert(p * u <= 2 * e + nu);
    lemma_small_sums(e, nu, n, p, u);
    law_total_is_exact(q);
    let t = total(q).value();
    let f = distance(t, p);
    assert(0x10_0000_0000_0000 * (f * u) <= (n - 1) * (p * u)) by (nonlinear_arith)
        requires
            0x10_0000_0000_0000 * f <= (n - 1) * p,
            u > 0,
    ;
    lemma_distance_scales(t, p, u);
    assert((n - 1) * (p * u) <= (n - 1) * (2 * e + nu)) by (nonlinear_arith)
        requires
            p * u <= 2 * e + nu,
            n > 1,
    ;
    assert((n - 1) * (2 * e + nu) == 2 * (n * e) - 2 * e + (n - 1) * nu) by (nonlinear_arith);
    assert(8 * ((n - 1) * nu) <= c * nu) by (nonlinear_arith)
        requires
            1 < n <= 0x4_0000_0000_0000,
            nu > 0,
            c == 0x20_0000_0000_0000,
    ;
    let ne = n * e;
    assert(c * distance(t * u, e) <= 4 * ne + e + 0x18_0000_0000_0000 * nu);
    assert(8 * ne <= c * e && ne >= 0) by (nonlinear_arith)
        requires
            ne == n * e,
            1 < n <= 0x4_0000_0000_0000,
            e >= 0,
            c == 0x20_0000_0000_0000,
    ;
    assert(t * u <= 2 * e + nu);
    assert(t >= 0) by (nonlinear_arith)
        requires
            0x10_0000_0000_0000 * distance(t, p) <= (n - 1) * p,
            p >= 0,
            1 < n <= 0x4_0000_0000_0000,
    ;
    lemma_variance(s, t);
    let v = total(q).over(Double::integer(n).minus(Double::integer(1)));
    let z = v.value() * (n - 1);
    assert(t * u >= 0) by (nonlinear_arith)
        requires
            t >= 0,
            u > 0,
    ;
    assert((n - 1) * u == nu - u) by (nonlinear_arith)
        requires
            nu == n * u,
    ;
    assert(c * distance(z * u, t * u) <= t * u + 0x10_0000_0000_0000 * nu) by {
        lemma_distance_scales(z, t, u);
        let g = distance(z, t);
        if c * g <= t {
            assert(c * (g * u) <= t * u) by (nonlinear_arith)
                requires
                    c * g <= t,
                    u > 0,
            ;
        } else {
            assert(2 * (g * u) <= (n - 1) * u) by (nonlinear_arith)
                requires
                    2 * g <= n - 1,
                    u > 0,
            ;
        }
    }
    let zu = z * u;
    assert(c * distance(zu, e) <= 4 * ne + 3 * e + 0x40_0000_0000_0000 * nu);
    assert(zu <= 2 * e + 3 * nu);
    law_root_is_rounded(v);
    let r = deviation_of(s).value();
    let w = v.value() * u;
    assert(w >= 0) by (nonlinear_arith)
        requires
            w == v.value() * u,
            v.value() >= 0,
            u > 0,
    ;
    lemma_root_squared(r, w);
    lemma_distance_scales(r * r, w, n - 1);
    assert(w * (n - 1) == zu) by (nonlinear_arith)
        requires
            w == v.value() * u,
            zu == (v.value() * (n - 1)) * u,
    ;
    let h = distance(r * r, w);
    assert(c * (h * (n - 1)) <= 3 * (w * (n - 1))) by (nonlinear_arith)
        requires
            c * h <= 3 * w,
            n > 1,
    ;
    assert((4 * n + 9) * e == 4 * ne + 9 * e) by (nonlinear_arith)
        requires
            ne == n * e,
    ;
}

proof fn lemma_small_sums(e: int, nu: int, n: int, p: int, u: int)
    requires
        u == pow2(1074),
        nu == n * u,
        1 < n <= 0x4_0000_0000_0000,
        0 <= e <= pow2(3168),
        p * u <= 2 * e + nu,
    ensures
        p <= pow2(2096),
{
    lemma_pow2_pos(1074);
    lemma_pow2_adds(2096, 1074);
    lemma_pow2_unfold(3169);
    lemma_pow2_unfold(3170);
    lemma_large_powers();
    lemma_pow2_adds(53, 1074);
    lemma_pow2_strictly_increases(1127, 3169);
    assert(nu <= pow2(53) * u) by (nonlinear_arith)
        requires
            nu == n * u,
            n <= pow2(53),
            u > 0,
    ;
    let x = pow2(2096) as int;
    assert(p * u <= x * u);
    assert(p <= x) by (nonlinear_arith)
        requires
            p * u <= x * u,
            u > 0,
    ;
}

/// The mean of the squared distances, with one less than their count as the denominator.
proof fn lemma_variance(s: Seq<Double>, t: int)
    requires
        1 < s.len() <= 0x4_0000_0000_0000,
        ({
            let q = total(squared_deviations(s, mean_of(s)));
            &&& q.finite()
            &&& q.value() == t
        }),
        0 <= t,
        t * pow2(1074) <= 2 * pow2(3168) + s.len() * pow2(1074),
    ensures
        ({
            let n = s.len() as int;
            let v = total(squared_deviations(s, mean_of(s))).over(
                Double::integer(n).minus(Double::integer(1)),
            );
            let g = distance(v.value() * (n - 1), t);
            &&& v.finite()
            &&& v.value() >= 0
            &&& 0x20_0000_0000_0000 * g <= t || 2 * g <= n - 1
        }),
{
    let n = s.len() as int;
    let u = pow2(1074) as int;
    let a = total(squared_deviations(s, mean_of(s)));
    let b = Double::integer(n).minus(Double::integer(1));
    lemma_pow2_pos(1074);
    lemma_one_less(n);
    let d = b.value();
    assert(d > 0) by (nonlinear_arith)
        requires
            d == (n - 1) * u,
            n > 1,
            u > 0,
    ;
    lemma_pow2_adds(2097, 1074);
    lemma_pow2_unfold(3169);
    lemma_pow2_unfold(3170);
    lemma_pow2_unfold(3171);
    lemma_large_powers();
    lemma_pow2_adds(53, 1074);
    lemma_pow2_strictly_increases(1127, 3169);
    assert(n * u <= pow2(53) * u) by (nonlinear_arith)
        requires
            n <= pow2(53),
            u > 0,
    ;
    let w = pow2(2097) as int;
    lemma_pow2_pos(2097);
    assert(w * u <= w * d) by (nonlinear_arith)
        requires
            d == (n - 1) * u,
            n > 1,
            u > 0,
            w > 0,
    ;
    law_quotient_is_rounded(a, b);
    let v = a.over(b).value();
    assert(v * d == (v * (n - 1)) * u) by (nonlinear_arith)
        requires
            d == (n - 1) * u,
    ;
    lemma_distance_scales(v * (n - 1), t, u);
    let g = distance(v * (n - 1), t);
    if 0x20_0000_0000_0000 * (g * u) <= t * u {
        assert(0x20_0000_0000_0000 * g <= t) by (nonlinear_arith)
            requires
                0x20_0000_0000_0000 * (g * u) <= t * u,
                u > 0,
        ;
    } else {
        assert(2 * g <= n - 1) by (nonlinear_arith)
            requires
                2 * (g * u) <= (n - 1) * u,
                u > 0,
        ;
    }
    assert(v >= 0) by (nonlinear_arith)
        requires
            0x20_0000_0000_0000 * g <= t || 2 * g <= n - 1,
            g == distance(v * (n - 1), t),
            t >= 0,
            n > 1,
    ;
}

/// One less than a count is exact.
proof fn lemma_one_less(n: int)
    requires
        1 < n <= 0x4_0000_0000_0000,
    ensures
        Double::integer(n).minus(Double::integer(1)).finite(),
        Double::integer(n).minus(Double::integer(1)).value() == (n - 1) * pow2(1074),
{
    let u = pow2(1074) as int;
    let (a, b) = (Double::integer(n), Double::integer(1));
    lemma_pow2_pos(1074);
    law_integers_are_exact(n);
    law_integers_are_exact(1);
    law_integers_are_exact(n - 1);
    assert(b.negated().magnitude() == b.magnitude() && b.negated().negative() == !b.negative());
    assert(b.negated().value() == -b.value());
    assert(n * u - 1 * u == (n - 1) * u) by (nonlinear_arith);
    assert((n - 1) * u > 0) by (nonlinear_arith)
        requires
            n > 1,
            u > 0,
    ;
    assert(a.minus(b) == Double::integer(n - 1));
}

/// The standard deviation of an aggregate: its square, times one less than the number of samples,
/// is the exact sum of the squared distances of the samples from the mean, but for `4 n + 9` parts
/// in `2^53` of that sum and three times as many units as there are samples. Of a single sample it
/// is zero.
pub proof fn law_deviation_is_exact(a: MetricAggregate, name: Seq<char>, samples: Seq<Double>)
    requires
        aggregates(a, name, samples),
        0 < kept(samples).len() <= 0x4_0000_0000_0000,
        all_finite(kept(samples)),
        a.mean.finite(),
        exact_squares(kept(samples), a.mean.value()) <= pow2(3168),
    ensures
        a.stdev.finite(),
        a.stdev.value() >= 0,
        kept(samples).len() == 1 ==> a.stdev.value() == 0,
        ({
            let r = a.stdev.value();
            let e = exact_squares(kept(samples), a.mean.value());
            let n = kept(samples).len() as int;
            n > 1 ==> 0x20_0000_0000_0000 * distance((r * r) * (n - 1), e) <= (4 * n + 9) * e
                + 0x60_0000_0000_0000 * (n * pow2(1074))
        }),
{
    let s = kept(samples);
    law_order_keeps_numbers(s);
    lemma_order_finite(s);
    lemma_order_squares(s, a.mean.value());
    if s.len() > 1 {
        lemma_deviation_is_exact(in_order(s));
    } else {
        lemma_units_zero();
    }
}

/// A percentile of numbers is one of them and cuts them where it says; without numbers it is zero.
pub proof fn law_percentile_cuts(s: Seq<Double>, percent: int)
    requires
        0 < percent <= 100,
    ensures
        s.len() > 0 ==> cuts(s, percentile_of(s, percent), percent) && s.contains(
            percentile_of(s, percent),
        ),
        s.len() == 0 ==> percentile_of(s, percent) == (Double { bits: 0 }),
{
    broadcast use vstd::seq_lib::group_to_multiset_ensures;

    if s.len() > 0 {
        let p = in_order(s);
        let i = rank_index(percent, s.len() as int);
        lemma_cuts(s, percent);
        law_order_keeps_numbers(s);
        law_nearest_rank(percent, s.len() as int);
        assert(p.to_multiset().count(p[i]) > 0);
    }
}

} // verus!
