//! What a comparison tells about two reports, field by field and in exact arithmetic.

use crate::bench::compare::{
    change, complete, describes, host_notes, known_aggregate, lemma_named, metric_note,
    metric_notes, minor_of, named, picked, regression, version_note, DiffEntry, NoteView,
};
use crate::bench::host_info::HostInfo;
use crate::bench::report::MetricAggregate;
use crate::number::double::Double;
use crate::number::error::{
    distance, law_difference_is_rounded, law_quotient_is_rounded, lemma_value_size, size,
};
use crate::number::laws::law_order_is_numeric;
use crate::parts::law_before_stops_at_the_first;
use crate::render::{decimal, law_decimal_reads_back};
use crate::text::{before, is_digit};
use vstd::arithmetic::power2::{lemma_pow2_pos, pow2};
use vstd::prelude::*;

verus! {

proof fn lemma_aggregate_names()
    ensures
        "min"@ != "p50"@,
        "min"@ != "p90"@,
        "min"@ != "p99"@,
        "min"@ != "max"@,
        "min"@ != "mean"@,
        "p50"@ != "p90"@,
        "p50"@ != "p99"@,
        "p50"@ != "max"@,
        "p50"@ != "mean"@,
        "p90"@ != "p99"@,
        "p90"@ != "max"@,
        "p90"@ != "mean"@,
        "p99"@ != "max"@,
        "p99"@ != "mean"@,
        "max"@ != "mean"@,
{
    reveal_strlit("min");
    reveal_strlit("p50");
    reveal_strlit("p90");
    reveal_strlit("p99");
    reveal_strlit("max");
    reveal_strlit("mean");
    assert("min"@[0] != "p50"@[0]);
    assert("min"@[0] != "p90"@[0]);
    assert("min"@[0] != "p99"@[0]);
    assert("min"@[1] != "max"@[1]);
    assert("min"@.len() != "mean"@.len());
    assert("p50"@[1] != "p90"@[1]);
    assert("p50"@[1] != "p99"@[1]);
    assert("p50"@[0] != "max"@[0]);
    assert("p50"@.len() != "mean"@.len());
    assert("p90"@[2] != "p99"@[2]);
    assert("p90"@[0] != "max"@[0]);
    assert("p90"@.len() != "mean"@.len());
    assert("p99"@[0] != "max"@[0]);
    assert("p99"@.len() != "mean"@.len());
    assert("max"@.len() != "mean"@.len());
}

/// The name of an aggregate stands for the field of that name, in every aggregate, and no other
/// name stands for anything.
pub proof fn law_names_pick_fields(a: MetricAggregate, on: Seq<char>)
    ensures
        on == "min"@ ==> picked(a, on) == Some(a.min),
        on == "p50"@ ==> picked(a, on) == Some(a.p50),
        on == "p90"@ ==> picked(a, on) == Some(a.p90),
        on == "p99"@ ==> picked(a, on) == Some(a.p99),
        on == "max"@ ==> picked(a, on) == Some(a.max),
        on == "mean"@ ==> picked(a, on) == Some(a.mean),
        known_aggregate(on) <==> picked(a, on) is Some,
        picked(a, on) is Some <==> on == "min"@ || on == "p50"@ || on == "p90"@ || on == "p99"@ || on == "max"@ || on == "mean"@,
{
    lemma_aggregate_names();
}

/// An entry on a metric of both reports holds the named aggregate of the baseline and that of the
/// current report, whichever is named, and the unit and the direction of the current one.
pub proof fn law_entry_holds_the_named_aggregate(
    d: DiffEntry,
    name: Seq<char>,
    b: MetricAggregate,
    c: MetricAggregate,
    on: Seq<char>,
    threshold: Double,
)
    requires
        describes(d, name, Some(b), Some(c), on, threshold),
    ensures
        d.metric@ == name,
        d.unit@ == c.unit@,
        d.higher_is_better == c.higher_is_better,
        on == "min"@ ==> d.baseline == b.min && d.current == c.min,
        on == "p50"@ ==> d.baseline == b.p50 && d.current == c.p50,
        on == "p90"@ ==> d.baseline == b.p90 && d.current == c.p90,
        on == "p99"@ ==> d.baseline == b.p99 && d.current == c.p99,
        on == "max"@ ==> d.baseline == b.max && d.current == c.max,
        on == "mean"@ ==> d.baseline == b.mean && d.current == c.mean,
{
    lemma_aggregate_names();
}

/// An entry on a metric of the baseline only holds the named aggregate of the baseline, and a NaN
/// for the current one; on a metric of the current report only it is the other way round.
pub proof fn law_unmatched_entry_holds_the_named_aggregate(
    d: DiffEntry,
    name: Seq<char>,
    a: MetricAggregate,
    on: Seq<char>,
    threshold: Double,
)
    ensures
        describes(d, name, Some(a), None, on, threshold) || describes(
            d,
            name,
            None,
            Some(a),
            on,
            threshold,
        ) ==> {
            &&& d.metric@ == name
            &&& d.unit@ == a.unit@
            &&& d.higher_is_better == a.higher_is_better
            &&& d.delta_ratio.nan()
            &&& d.regression_ratio.nan()
            &&& !d.failed
        },
        describes(d, name, Some(a), None, on, threshold) ==> {
            &&& d.current.nan()
            &&& on == "min"@ ==> d.baseline == a.min
            &&& on == "p50"@ ==> d.baseline == a.p50
            &&& on == "p90"@ ==> d.baseline == a.p90
            &&& on == "p99"@ ==> d.baseline == a.p99
            &&& on == "max"@ ==> d.baseline == a.max
            &&& on == "mean"@ ==> d.baseline == a.mean
        },
        describes(d, name, None, Some(a), on, threshold) ==> {
            &&& d.baseline.nan()
            &&& on == "min"@ ==> d.current == a.min
            &&& on == "p50"@ ==> d.current == a.p50
            &&& on == "p90"@ ==> d.current == a.p90
            &&& on == "p99"@ ==> d.current == a.p99
            &&& on == "max"@ ==> d.current == a.max
            &&& on == "mean"@ ==> d.current == a.mean
        },
{
    lemma_aggregate_names();
    lemma_invalid_is_nan();
}

proof fn lemma_invalid_is_nan()
    ensures
        Double::invalid().nan(),
{
}

/// Among aggregates of one name the last one counts.
pub proof fn law_last_of_a_name_counts(aggregates: Seq<MetricAggregate>, i: int)
    requires
        0 <= i < aggregates.len(),
        forall|j: int| i < j < aggregates.len() ==> aggregates[i].name@ != #[trigger] aggregates[j].name@,
    ensures
        named(aggregates, aggregates[i].name@) == Some(aggregates[i]),
    decreases aggregates.len(),
{
    if i < aggregates.len() - 1 {
        let front = aggregates.drop_last();
        assert(aggregates[i].name@ != aggregates[aggregates.len() - 1].name@);
        assert(front[i] == aggregates[i]);
        assert forall|j: int| i < j < front.len() implies front[i].name@ != #[trigger] front[j].name@ by {
            assert(aggregates[i].name@ != aggregates[j].name@);
        }
        law_last_of_a_name_counts(front, i);
    }
}

/// A comparison gates the named aggregate: the entry of a metric holds that very field of the two
/// aggregates of its name, and fails by the change between the two.
pub proof fn law_comparison_gates_the_named_aggregate(
    diffs: Seq<DiffEntry>,
    b: Seq<MetricAggregate>,
    c: Seq<MetricAggregate>,
    on: Seq<char>,
    threshold: Double,
    i: int,
    j: int,
    k: int,
)
    requires
        complete(diffs, b, c, on, threshold),
        0 <= i < diffs.len(),
        0 <= j < b.len(),
        0 <= k < c.len(),
        b[j].name@ == diffs[i].metric@,
        c[k].name@ == diffs[i].metric@,
        forall|m: int| j < m < b.len() ==> b[j].name@ != #[trigger] b[m].name@,
        forall|m: int| k < m < c.len() ==> c[k].name@ != #[trigger] c[m].name@,
    ensures
        diffs[i].unit@ == c[k].unit@,
        diffs[i].higher_is_better == c[k].higher_is_better,
        on == "min"@ ==> diffs[i].baseline == b[j].min && diffs[i].current == c[k].min,
        on == "p50"@ ==> diffs[i].baseline == b[j].p50 && diffs[i].current == c[k].p50,
        on == "p90"@ ==> diffs[i].baseline == b[j].p90 && diffs[i].current == c[k].p90,
        on == "p99"@ ==> diffs[i].baseline == b[j].p99 && diffs[i].current == c[k].p99,
        on == "max"@ ==> diffs[i].baseline == b[j].max && diffs[i].current == c[k].max,
        on == "mean"@ ==> diffs[i].baseline == b[j].mean && diffs[i].current == c[k].mean,
{
    let d = diffs[i];
    law_last_of_a_name_counts(b, j);
    law_last_of_a_name_counts(c, k);
    assert(describes(d, d.metric@, named(b, d.metric@), named(c, d.metric@), on, threshold));
    law_entry_holds_the_named_aggregate(d, d.metric@, b[j], c[k], on, threshold);
}

/// A relative change is the exact one: the difference of the two numbers divided by the magnitude
/// of the baseline, off by at most three parts in `2^53` and half the smallest positive number.
pub proof fn law_change_is_exact(baseline: Double, current: Double)
    requires
        baseline.finite(),
        current.finite(),
        baseline.value() != 0,
        size(current.value() - baseline.value()) <= pow2(2097),
        2 * size(current.value() - baseline.value()) * pow2(1074) <= pow2(2097) * size(
            baseline.value(),
        ),
    ensures
        change(baseline, current).finite(),
        ({
            let w = (current.value() - baseline.value()) * pow2(1074);
            let a = size(baseline.value());
            0x20_0000_0000_0000 * distance(change(baseline, current).value() * a, w) <= 3 * size(w)
                + 0x10_0000_0000_0000 * a
        }),
{
    let x = current.value() - baseline.value();
    let d = current.minus(baseline);
    let m = baseline.absolute();
    let u = pow2(1074) as int;
    let a = size(baseline.value());
    assert(m.magnitude() == baseline.magnitude() && !m.negative());
    lemma_value_size(baseline);
    lemma_value_size(m);
    lemma_pow2_pos(1074);
    assert(m.value() == a);
    law_difference_is_rounded(current, baseline);
    let y = d.value();
    assert(size(y) <= 2 * size(x));
    let p = pow2(2097) as int;
    assert(size(y) * u <= p * a) by (nonlinear_arith)
        requires
            size(y) <= 2 * size(x),
            2 * size(x) * u <= p * a,
            u > 0,
    ;
    law_quotient_is_rounded(d, m);
    let q = change(baseline, current).value();
    let w = x * u;
    let e = distance(q * a, y * u);
    let f = distance(y, x);
    assert(size(w) == size(x) * u) by (nonlinear_arith)
        requires
            w == x * u,
            u > 0,
    ;
    assert(distance(y * u, w) == f * u) by (nonlinear_arith)
        requires
            w == x * u,
            f == distance(y, x),
            u > 0,
    ;
    let c: int = 0x20_0000_0000_0000;
    assert(c * (f * u) <= size(x) * u) by (nonlinear_arith)
        requires
            c * f <= size(x),
            u > 0,
    ;
    assert(size(y) * u <= 2 * (size(x) * u)) by (nonlinear_arith)
        requires
            size(y) <= 2 * size(x),
            u > 0,
    ;
    assert(distance(q * a, w) <= e + f * u);
}

/// Whether the entry fails, where both numbers are finite and the baseline is not zero: it does
/// where the exact change for the worse, as a fraction of the baseline's magnitude, exceeds the
/// threshold by more than the rounding, and does not where it stays below by more than that.
pub proof fn law_failure_is_exact(
    d: DiffEntry,
    name: Seq<char>,
    b: MetricAggregate,
    c: MetricAggregate,
    on: Seq<char>,
    threshold: Double,
)
    requires
        describes(d, name, Some(b), Some(c), on, threshold),
        threshold.finite(),
        d.baseline.finite(),
        d.current.finite(),
        d.baseline.value() != 0,
        size(d.current.value() - d.baseline.value()) <= pow2(2097),
        2 * size(d.current.value() - d.baseline.value()) * pow2(1074) <= pow2(2097) * size(
            d.baseline.value(),
        ),
    ensures
        ({
            let worse = if c.higher_is_better {
                d.baseline.value() - d.current.value()
            } else {
                d.current.value() - d.baseline.value()
            };
            let a = size(d.baseline.value());
            let exact = 0x20_0000_0000_0000 * (worse * pow2(1074));
            let limit = 0x20_0000_0000_0000 * (threshold.value() * a);
            let slack = 3 * size(worse * pow2(1074)) + 0x10_0000_0000_0000 * a;
            &&& exact > limit + slack ==> d.failed
            &&& exact < limit - slack ==> !d.failed
        }),
{
    let x = d.current.value() - d.baseline.value();
    let u = pow2(1074) as int;
    let a = size(d.baseline.value());
    let q = change(d.baseline, d.current);
    let r = regression(q, c.higher_is_better);
    law_change_is_exact(d.baseline, d.current);
    assert(q.negated().magnitude() == q.magnitude());
    assert(q.negated().negative() == !q.negative());
    assert(q.negated().value() == -q.value());
    law_order_is_numeric(threshold, r);
    let worse = if c.higher_is_better {
        -x
    } else {
        x
    };
    assert((-x) * u == -(x * u)) by (nonlinear_arith);
    assert((-q.value()) * a == -(q.value() * a)) by (nonlinear_arith);
    let (t, v) = (threshold.value(), r.value());
    assert(t < v ==> t * a < v * a) by (nonlinear_arith)
        requires
            a > 0,
    ;
    assert(v <= t ==> v * a <= t * a) by (nonlinear_arith)
        requires
            a > 0,
    ;
}

/// From a baseline of zero any change for the worse exceeds every finite threshold, and a value
/// that stays at zero or gets better exceeds none that is not negative.
pub proof fn law_failure_from_zero(
    d: DiffEntry,
    name: Seq<char>,
    b: MetricAggregate,
    c: MetricAggregate,
    on: Seq<char>,
    threshold: Double,
)
    requires
        describes(d, name, Some(b), Some(c), on, threshold),
        threshold.finite(),
        threshold.value() >= 0,
        d.current.finite(),
        d.baseline.finite(),
        d.baseline.value() == 0,
    ensures
        d.failed <==> if c.higher_is_better {
            d.current.value() < 0
        } else {
            d.current.value() > 0
        },
{
    let inf: int = 0x7ff0_0000_0000_0000;
    let q = change(d.baseline, d.current);
    lemma_value_size(d.baseline);
    lemma_value_size(d.current);
    lemma_value_size(threshold);
    law_order_is_numeric(d.current, d.baseline);
    assert(q.negated().magnitude() == q.magnitude());
    assert(q.negated().negative() == !q.negative());
}

/// Whether some aggregate is called `name`.
pub open spec fn has_aggregate(list: Seq<MetricAggregate>, name: Seq<char>) -> bool {
    exists|i: int| 0 <= i < list.len() && #[trigger] list[i].name@ == name
}

proof fn lemma_contains_sum(a: Seq<NoteView>, b: Seq<NoteView>, x: NoteView)
    ensures
        (a + b).contains(x) <==> a.contains(x) || b.contains(x),
{
    if a.contains(x) {
        let i = choose|i: int| 0 <= i < a.len() && a[i] == x;
        assert((a + b)[i] == x);
    }
    if b.contains(x) {
        let i = choose|i: int| 0 <= i < b.len() && b[i] == x;
        assert((a + b)[a.len() + i] == x);
    }
    if (a + b).contains(x) {
        let i = choose|i: int| 0 <= i < (a + b).len() && (a + b)[i] == x;
        if i < a.len() {
            assert(a[i] == x);
        } else {
            assert(b[i - a.len()] == x);
        }
    }
}

/// A metric is said to have vanished exactly where the baseline has it and the current report has
/// not, and to be new exactly where it is the other way round.
pub proof fn law_unmatched_metrics_are_noted(
    b: Seq<MetricAggregate>,
    c: Seq<MetricAggregate>,
    names: Seq<Seq<char>>,
    name: Seq<char>,
)
    ensures
        metric_notes(b, c, names).contains(NoteView::Vanished(name)) <==> names.contains(name)
            && has_aggregate(b, name) && !has_aggregate(c, name),
        metric_notes(b, c, names).contains(NoteView::New(name)) <==> names.contains(name)
            && has_aggregate(c, name) && !has_aggregate(b, name),
    decreases names.len(),
{
    if names.len() > 0 {
        let front = names.drop_last();
        let last = names.last();
        let note = metric_note(b, c, last);
        law_unmatched_metrics_are_noted(b, c, front, name);
        lemma_named(b, last);
        lemma_named(c, last);
        lemma_contains_sum(metric_notes(b, c, front), note, NoteView::Vanished(name));
        lemma_contains_sum(metric_notes(b, c, front), note, NoteView::New(name));
        assert(names.contains(name) <==> front.contains(name) || last == name) by {
            if front.contains(name) {
                let i = choose|i: int| 0 <= i < front.len() && front[i] == name;
                assert(names[i] == name);
            }
            if last == name {
                assert(names[names.len() - 1] == name);
            }
            if names.contains(name) {
                let i = choose|i: int| 0 <= i < names.len() && names[i] == name;
                if i < front.len() {
                    assert(front[i] == name);
                }
            }
        }
        if note.len() > 0 {
            assert(note[0] == NoteView::Vanished(last) || note[0] == NoteView::New(last));
            assert(note.contains(note[0]));
        }
    }
}

/// Each way in which two machines differ is noted with both values, and nothing else is: the
/// kernel, the number of processors, and the amount of memory.
pub proof fn law_differing_hosts_are_noted(
    b: HostInfo,
    c: HostInfo,
    x: Seq<char>,
    y: Seq<char>,
    m: u32,
    n: u32,
    p: u64,
    q: u64,
)
    ensures
        host_notes(b, c).contains(NoteView::Kernel(x, y)) <==> x == b.kernel@ && y == c.kernel@ && x
            != y,
        host_notes(b, c).contains(NoteView::CpuCount(m, n)) <==> m == b.cpu_count && n
            == c.cpu_count && m != n,
        host_notes(b, c).contains(NoteView::Memory(p, q)) <==> p == b.mem_total_bytes && q
            == c.mem_total_bytes && p != q,
        b.kernel@ == c.kernel@ && b.cpu_count == c.cpu_count && b.mem_total_bytes
            == c.mem_total_bytes ==> host_notes(b, c).len() == 0,
{
    let kernel = if b.kernel@ != c.kernel@ {
        seq![NoteView::Kernel(b.kernel@, c.kernel@)]
    } else {
        Seq::empty()
    };
    let cpus = if b.cpu_count != c.cpu_count {
        seq![NoteView::CpuCount(b.cpu_count, c.cpu_count)]
    } else {
        Seq::empty()
    };
    let memory = if b.mem_total_bytes != c.mem_total_bytes {
        seq![NoteView::Memory(b.mem_total_bytes, c.mem_total_bytes)]
    } else {
        Seq::empty()
    };
    let notes = host_notes(b, c);
    assert(notes == kernel + cpus + memory);
    lemma_contains_sum(kernel + cpus, memory, NoteView::Kernel(x, y));
    lemma_contains_sum(kernel, cpus, NoteView::Kernel(x, y));
    lemma_contains_sum(kernel + cpus, memory, NoteView::CpuCount(m, n));
    lemma_contains_sum(kernel, cpus, NoteView::CpuCount(m, n));
    lemma_contains_sum(kernel + cpus, memory, NoteView::Memory(p, q));
    lemma_contains_sum(kernel, cpus, NoteView::Memory(p, q));
    if kernel.len() > 0 {
        assert(kernel.contains(kernel[0]));
    }
    if cpus.len() > 0 {
        assert(cpus.contains(cpus[0]));
    }
    if memory.len() > 0 {
        assert(memory.contains(memory[0]));
    }
}

/// Schema versions are told apart by the number behind their first point: versions of the same
/// major component are noted exactly where that number is there in both and differs.
pub proof fn law_minor_versions_are_noted(
    major: Seq<char>,
    x: nat,
    y: nat,
    rest: Seq<char>,
    other: Seq<char>,
)
    requires
        !major.contains('.'),
        rest.len() > 0 ==> rest[0] == '.',
        other.len() > 0 ==> other[0] == '.',
        x <= u64::MAX,
        y <= u64::MAX,
    ensures
        ({
            let b = major + seq!['.'] + (decimal(x) + rest);
            let c = major + seq!['.'] + (decimal(y) + other);
            &&& before(b, '.') == major
            &&& version_note(b, c) == if x != y {
                seq![NoteView::NewerMinor(b, c)]
            } else {
                Seq::empty()
            }
            &&& version_note(major, c) == Seq::<NoteView>::empty()
            &&& version_note(b, major) == Seq::<NoteView>::empty()
        }),
{
    lemma_minor(major, x, rest);
    lemma_minor(major, y, other);
}

proof fn lemma_minor(major: Seq<char>, x: nat, rest: Seq<char>)
    requires
        !major.contains('.'),
        rest.len() > 0 ==> rest[0] == '.',
        x <= u64::MAX,
    ensures
        before(major + seq!['.'] + (decimal(x) + rest), '.') == major,
        minor_of(major + seq!['.'] + (decimal(x) + rest)) == Some(x as int),
        minor_of(major) is None,
{
    let d = decimal(x);
    let tail = seq!['.'] + (d + rest);
    let v = major + seq!['.'] + (d + rest);
    assert(v =~= major + tail);
    law_before_stops_at_the_first(major, tail, '.');
    assert(v.skip(major.len() as int + 1) =~= d + rest);
    law_decimal_reads_back(x);
    assert(!d.contains('.')) by {
        if d.contains('.') {
            let i = choose|i: int| 0 <= i < d.len() && d[i] == '.';
            assert(is_digit(d[i]));
        }
    }
    law_before_stops_at_the_first(d, rest, '.');
    assert(major + Seq::<char>::empty() =~= major);
    law_before_stops_at_the_first(major, Seq::empty(), '.');
}

} // verus!
