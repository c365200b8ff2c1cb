//! Comparing a report against a baseline.
//!
//! The aggregates of the two reports are joined by metric name, and one aggregate of each metric
//! is gated: a metric fails when it got worse by more than a threshold. One that got worse by
//! exactly the threshold passes, and improvements never fail. A metric that only one of the
//! reports has is noted and does not fail either.
//!
//! Reports are comparable only when they describe the same scenario and declare the same major
//! schema version. Different minor versions are noted, and so are different machines: another
//! kernel, number of processors or amount of memory.

use crate::bench::host_info::HostInfo;
use crate::bench::report::{BenchReport, MetricAggregate};
use crate::names::{increasing, precedes, texts, NameMap};
use crate::number::double::Double;
use crate::number::laws::{law_difference_sign, law_order_is_numeric, law_quotient_sign};
use crate::text::{before, chars_of, equal, parse_u64, parsed_u64, slice, take_before};
use vstd::prelude::*;

verus! {

/// What became of one metric between the baseline and the current report.
#[derive(Debug)]
pub struct DiffEntry {
    pub metric: String,
    pub unit: String,
    pub higher_is_better: bool,
    /// The gated aggregate in the baseline, a NaN where the metric is new.
    pub baseline: Double,
    /// The gated aggregate in the current report, a NaN where the metric has vanished.
    pub current: Double,
    /// The relative change: positive where the current value is larger.
    pub delta_ratio: Double,
    /// The relative change with the sign that makes a positive ratio a regression.
    pub regression_ratio: Double,
    pub failed: bool,
}

/// Something that a comparison points out without failing.
#[derive(Debug)]
pub enum Note {
    /// The reports have the same major schema version and different minor ones.
    NewerMinor { baseline: String, current: String },
    /// The reports come from different kernels.
    Kernel { baseline: String, current: String },
    /// The reports come from machines with different numbers of processors.
    CpuCount { baseline_cpus: u32, current_cpus: u32 },
    /// The reports come from machines with different amounts of memory.
    Memory { baseline_bytes: u64, current_bytes: u64 },
    /// The metric is in the baseline only.
    Vanished { metric: String },
    /// The metric is in the current report only.
    New { metric: String },
}

/// Why two reports were not compared.
#[derive(Debug)]
pub enum CompareError {
    SchemaMajor { baseline: String, current: String },
    Scenario { baseline: String, current: String },
    /// The name of the aggregate to gate on is none that an aggregate has.
    UnknownAggregate { on: String },
}

/// What a comparison found: the notes in the order in which they came up, and one entry for each
/// metric.
#[derive(Debug)]
pub struct Comparison {
    pub notes: Vec<Note>,
    pub outcome: Result<Vec<DiffEntry>, CompareError>,
}

/// The text of a `Note`.
pub enum NoteView {
    NewerMinor(Seq<char>, Seq<char>),
    Kernel(Seq<char>, Seq<char>),
    CpuCount(u32, u32),
    Memory(u64, u64),
    Vanished(Seq<char>),
    New(Seq<char>),
}

impl Note {
    pub open spec fn view(self) -> NoteView {
        match self {
            Note::NewerMinor { baseline, current } => NoteView::NewerMinor(baseline@, current@),
            Note::Kernel { baseline, current } => NoteView::Kernel(baseline@, current@),
            Note::CpuCount { baseline_cpus, current_cpus } => NoteView::CpuCount(
                baseline_cpus,
                current_cpus,
            ),
            Note::Memory { baseline_bytes, current_bytes } => NoteView::Memory(
                baseline_bytes,
                current_bytes,
            ),
            Note::Vanished { metric } => NoteView::Vanished(metric@),
            Note::New { metric } => NoteView::New(metric@),
        }
    }
}

pub open spec fn note_views(notes: Seq<Note>) -> Seq<NoteView> {
    notes.map_values(|n: Note| n@)
}

/// The first component of a schema version, or all of it where it has only one.
pub fn major(v: &str) -> (r: &str)
    ensures
        r@ == before(v@, '.'),
{
    let text = chars_of(v);
    let head = take_before(&text, '.');
    let n: usize = head.len();
    proof {
        lemma_before_prefix(v@, '.');
    }
    v.substring_char(0, n)
}

proof fn lemma_before_prefix(s: Seq<char>, stop: char)
    ensures
        before(s, stop).len() <= s.len(),
        before(s, stop) == s.subrange(0, before(s, stop).len() as int),
        before(s, stop).len() < s.len() ==> s[before(s, stop).len() as int] == stop,
    decreases s.len(),
{
    if s.len() > 0 && s[0] != stop {
        let rest = s.drop_first();
        lemma_before_prefix(rest, stop);
        let n = before(rest, stop).len() as int;
        assert(s.subrange(0, n + 1) == seq![s[0]] + rest.subrange(0, n));
    } else {
        assert(s.subrange(0, 0) == Seq::<char>::empty());
    }
}

/// The second component of a schema version, where it has one and that is a number.
pub open spec fn minor_of(v: Seq<char>) -> Option<int> {
    if before(v, '.').len() < v.len() {
        parsed_u64(before(v.skip(before(v, '.').len() as int + 1), '.'))
    } else {
        None
    }
}

fn minor(v: &str) -> (r: Option<u64>)
    ensures
        match r {
            Some(n) => minor_of(v@) == Some(n as int),
            None => minor_of(v@) is None,
        },
{
    let text = chars_of(v);
    let head = take_before(&text, '.');
    proof {
        lemma_before_prefix(v@, '.');
    }
    if head.len() < text.len() {
        let rest = slice(&text, head.len() + 1, text.len());
        assert(rest@ == v@.skip(head@.len() as int + 1));
        let second = take_before(&rest, '.');
        parse_u64(&second)
    } else {
        None
    }
}

/// The aggregate that `on` names.
pub open spec fn picked(a: MetricAggregate, on: Seq<char>) -> Option<Double> {
    if on == "min"@ {
        Some(a.min)
    } else if on == "p50"@ {
        Some(a.p50)
    } else if on == "p90"@ {
        Some(a.p90)
    } else if on == "p99"@ {
        Some(a.p99)
    } else if on == "max"@ {
        Some(a.max)
    } else if on == "mean"@ {
        Some(a.mean)
    } else {
        None
    }
}

/// Whether `on` names an aggregate.
pub open spec fn known_aggregate(on: Seq<char>) -> bool {
    on == "min"@ || on == "p50"@ || on == "p90"@ || on == "p99"@ || on == "max"@ || on == "mean"@
}

/// The aggregate that `on` names, or an error that repeats the name.
pub fn pick(a: &MetricAggregate, on: &str) -> (r: Result<Double, CompareError>)
    ensures
        r is Ok <==> known_aggregate(on@),
        match r {
            Ok(x) => picked(*a, on@) == Some(x),
            Err(e) => picked(*a, on@) is None && unknown(e, on@),
        },
{
    if equal(on, "min") {
        Ok(a.min)
    } else if equal(on, "p50") {
        Ok(a.p50)
    } else if equal(on, "p90") {
        Ok(a.p90)
    } else if equal(on, "p99") {
        Ok(a.p99)
    } else if equal(on, "max") {
        Ok(a.max)
    } else if equal(on, "mean") {
        Ok(a.mean)
    } else {
        Err(CompareError::UnknownAggregate { on: on.to_owned() })
    }
}

/// Whether the error says that `on` names no aggregate.
pub open spec fn unknown(e: CompareError, on: Seq<char>) -> bool {
    match e {
        CompareError::UnknownAggregate { on: name } => name@ == on,
        _ => false,
    }
}

/// The relative change from `baseline` to `current`, as a fraction of the baseline's magnitude:
/// positive where `current` is larger. From zero, any change is infinite.
pub open spec fn change(baseline: Double, current: Double) -> Double {
    if baseline.zero() {
        if current.zero() {
            Double::of(false, 0)
        } else {
            Double::of(current.less(baseline), 0x7ff0_0000_0000_0000)
        }
    } else {
        current.minus(baseline).over(baseline.absolute())
    }
}

/// The relative change with the sign that makes a positive ratio a regression.
pub open spec fn regression(change: Double, higher_is_better: bool) -> Double {
    if higher_is_better {
        change.negated()
    } else {
        change
    }
}

pub fn delta_ratio(baseline: Double, current: Double) -> (r: Double)
    ensures
        r == change(baseline, current),
{
    let zero: Double = Double::from_bits(0);
    if baseline.equals(zero) {
        if current.equals(zero) {
            zero
        } else if current.lt(baseline) {
            Double::from_bits(0xfff0_0000_0000_0000)
        } else {
            Double::from_bits(0x7ff0_0000_0000_0000)
        }
    } else {
        current.sub(baseline).div(baseline.abs())
    }
}

pub fn regression_ratio(change: Double, higher_is_better: bool) -> (r: Double)
    ensures
        r == regression(change, higher_is_better),
{
    if higher_is_better {
        change.neg()
    } else {
        change
    }
}

/// The aggregate of the metric `name`: the last one, if several carry that name.
pub open spec fn named(aggregates: Seq<MetricAggregate>, name: Seq<char>) -> Option<MetricAggregate>
    decreases aggregates.len(),
{
    if aggregates.len() == 0 {
        None
    } else if aggregates.last().name@ == name {
        Some(aggregates.last())
    } else {
        named(aggregates.drop_last(), name)
    }
}

fn find_named<'a>(aggregates: &'a Vec<MetricAggregate>, name: &String) -> (r: Option<
    &'a MetricAggregate,
>)
    ensures
        match r {
            Some(a) => named(aggregates@, name@) == Some(*a),
            None => named(aggregates@, name@) is None,
        },
{
    let mut i: usize = aggregates.len();
    assert(aggregates@.take(i as int) == aggregates@);
    while i > 0
        invariant
            i <= aggregates.len(),
            named(aggregates@, name@) == named(aggregates@.take(i as int), name@),
        decreases i,
    {
        let ghost part = aggregates@.take(i as int);
        assert(part.last() == aggregates@[i - 1]);
        assert(part.drop_last() == aggregates@.take(i - 1));
        i = i - 1;
        if equal(aggregates[i].name.as_str(), name.as_str()) {
            return Some(&aggregates[i]);
        }
    }
    None
}

/// The metrics that at least one of the reports has.
pub open spec fn either_has(b: Seq<MetricAggregate>, c: Seq<MetricAggregate>, name: Seq<char>) -> bool {
    named(b, name) is Some || named(c, name) is Some
}

/// Whether `d` says what became of the metric `name`, given its aggregates in the two reports.
pub open spec fn describes(
    d: DiffEntry,
    name: Seq<char>,
    b: Option<MetricAggregate>,
    c: Option<MetricAggregate>,
    on: Seq<char>,
    threshold: Double,
) -> bool {
    &&& d.metric@ == name
    &&& match (b, c) {
        (Some(b), Some(c)) => {
            &&& d.unit@ == c.unit@
            &&& d.higher_is_better == c.higher_is_better
            &&& Some(d.baseline) == picked(b, on)
            &&& Some(d.current) == picked(c, on)
            &&& d.delta_ratio == change(d.baseline, d.current)
            &&& d.regression_ratio == regression(d.delta_ratio, c.higher_is_better)
            &&& d.failed == threshold.less(d.regression_ratio)
        },
        (Some(b), None) => {
            &&& d.unit@ == b.unit@
            &&& d.higher_is_better == b.higher_is_better
            &&& Some(d.baseline) == picked(b, on)
            &&& d.current == Double::invalid()
            &&& d.delta_ratio == Double::invalid()
            &&& d.regression_ratio == Double::invalid()
            &&& !d.failed
        },
        (None, Some(c)) => {
            &&& d.unit@ == c.unit@
            &&& d.higher_is_better == c.higher_is_better
            &&& d.baseline == Double::invalid()
            &&& Some(d.current) == picked(c, on)
            &&& d.delta_ratio == Double::invalid()
            &&& d.regression_ratio == Double::invalid()
            &&& !d.failed
        },
        (None, None) => false,
    }
}

fn compare_metric(
    name: &String,
    b: Option<&MetricAggregate>,
    c: Option<&MetricAggregate>,
    on: &str,
    threshold: Double,
) -> (r: Result<DiffEntry, CompareError>)
    requires
        b is Some || c is Some,
    ensures
        r is Ok <==> known_aggregate(on@),
        match r {
            Ok(d) => describes(
                d,
                name@,
                match b {
                    Some(x) => Some(*x),
                    None => None,
                },
                match c {
                    Some(x) => Some(*x),
                    None => None,
                },
                on@,
                threshold,
            ),
            Err(e) => unknown(e, on@),
        },
{
    let nan: Double = Double::from_bits(0x7ff8_0000_0000_0000);
    match (b, c) {
        (Some(b), Some(c)) => {
            let baseline: Double = match pick(b, on) {
                Ok(x) => x,
                Err(e) => {
                    return Err(e);
                },
            };
            let current: Double = match pick(c, on) {
                Ok(x) => x,
                Err(e) => {
                    return Err(e);
                },
            };
            let delta: Double = delta_ratio(baseline, current);
            let worse: Double = regression_ratio(delta, c.higher_is_better);
            Ok(
                DiffEntry {
                    metric: name.clone(),
                    unit: c.unit.clone(),
                    higher_is_better: c.higher_is_better,
                    baseline,
                    current,
                    delta_ratio: delta,
                    regression_ratio: worse,
                    failed: threshold.lt(worse),
                },
            )
        },
        (Some(b), None) => match pick(b, on) {
            Ok(baseline) => Ok(
                DiffEntry {
                    metric: name.clone(),
                    unit: b.unit.clone(),
                    higher_is_better: b.higher_is_better,
                    baseline,
                    current: nan,
                    delta_ratio: nan,
                    regression_ratio: nan,
                    failed: false,
                },
            ),
            Err(e) => Err(e),
        },
        (None, Some(c)) => match pick(c, on) {
            Ok(current) => Ok(
                DiffEntry {
                    metric: name.clone(),
                    unit: c.unit.clone(),
                    higher_is_better: c.higher_is_better,
                    baseline: nan,
                    current,
                    delta_ratio: nan,
                    regression_ratio: nan,
                    failed: false,
                },
            ),
            Err(e) => Err(e),
        },
        (None, None) => Err(CompareError::UnknownAggregate { on: on.to_owned() }),
    }
}

pub proof fn lemma_named(aggregates: Seq<MetricAggregate>, name: Seq<char>)
    ensures
        named(aggregates, name) is Some <==> exists|i: int|
            0 <= i < aggregates.len() && #[trigger] aggregates[i].name@ == name,
    decreases aggregates.len(),
{
    if aggregates.len() > 0 {
        let front = aggregates.drop_last();
        lemma_named(front, name);
        if aggregates.last().name@ == name {
            assert(aggregates[aggregates.len() - 1].name@ == name);
        }
        if exists|i: int| 0 <= i < front.len() && #[trigger] front[i].name@ == name {
            let i = choose|i: int| 0 <= i < front.len() && #[trigger] front[i].name@ == name;
            assert(aggregates[i].name@ == name);
        }
        if exists|i: int| 0 <= i < aggregates.len() && #[trigger] aggregates[i].name@ == name {
            let i = choose|i: int|
                0 <= i < aggregates.len() && #[trigger] aggregates[i].name@ == name;
            if i < front.len() {
                assert(front[i].name@ == name);
            }
        }
    }
}

/// Adds the names of the aggregates to those in `known`.
fn add_names(known: NameMap<bool>, aggregates: &Vec<MetricAggregate>) -> (r: NameMap<bool>)
    ensures
        forall|n: Seq<char>| #[trigger]
            r@.dom().contains(n) <==> known@.dom().contains(n) || named(aggregates@, n) is Some,
{
    let ghost start = known@.dom();
    let mut r: NameMap<bool> = known;
    let mut i: usize = 0;
    while i < aggregates.len()
        invariant
            i <= aggregates.len(),
            forall|n: Seq<char>| #[trigger]
                r@.dom().contains(n) <==> start.contains(n) || exists|j: int|
                    0 <= j < i && #[trigger] aggregates@[j].name@ == n,
        decreases aggregates.len() - i,
    {
        let ghost before_map = r@;
        r = r.with(aggregates[i].name.as_str(), true);
        proof {
            assert forall|n: Seq<char>| #[trigger] r@.dom().contains(n) <==> start.contains(n)
                || exists|j: int| 0 <= j < i + 1 && #[trigger] aggregates@[j].name@ == n by {
                if n == aggregates@[i as int].name@ {
                    assert(r@.dom().contains(n));
                } else {
                    assert(r@.dom().contains(n) == before_map.dom().contains(n));
                    if exists|j: int| 0 <= j < i + 1 && #[trigger] aggregates@[j].name@ == n {
                        let j = choose|j: int|
                            0 <= j < i + 1 && #[trigger] aggregates@[j].name@ == n;
                        assert(j < i);
                    }
                }
            }
        }
        i = i + 1;
    }
    proof {
        assert forall|n: Seq<char>| #[trigger] r@.dom().contains(n) <==> start.contains(n) || named(
            aggregates@,
            n,
        ) is Some by {
            lemma_named(aggregates@, n);
        }
    }
    r
}

/// The metrics of both reports, in alphabetical order.
fn all_names(b: &Vec<MetricAggregate>, c: &Vec<MetricAggregate>) -> (r: Vec<String>)
    ensures
        increasing(texts(r@)),
        forall|n: Seq<char>| #[trigger] texts(r@).contains(n) <==> either_has(b@, c@, n),
{
    let known = add_names(NameMap::new(), b);
    let known = add_names(known, c);
    known.names()
}

/// The note that a metric of one report only gives rise to.
pub open spec fn metric_note(
    b: Seq<MetricAggregate>,
    c: Seq<MetricAggregate>,
    name: Seq<char>,
) -> Seq<NoteView> {
    if named(b, name) is Some && named(c, name) is None {
        seq![NoteView::Vanished(name)]
    } else if named(b, name) is None && named(c, name) is Some {
        seq![NoteView::New(name)]
    } else {
        Seq::empty()
    }
}

/// The notes on the metrics `names`, in that order.
pub open spec fn metric_notes(
    b: Seq<MetricAggregate>,
    c: Seq<MetricAggregate>,
    names: Seq<Seq<char>>,
) -> Seq<NoteView>
    decreases names.len(),
{
    if names.len() == 0 {
        Seq::empty()
    } else {
        metric_notes(b, c, names.drop_last()) + metric_note(b, c, names.last())
    }
}

/// The note on schema versions that differ in their minor component.
pub open spec fn version_note(b: Seq<char>, c: Seq<char>) -> Seq<NoteView> {
    match (minor_of(b), minor_of(c)) {
        (Some(x), Some(y)) => if x != y {
            seq![NoteView::NewerMinor(b, c)]
        } else {
            Seq::empty()
        },
        _ => Seq::empty(),
    }
}

/// The notes on machines that differ, which makes a comparison say little about the code.
pub open spec fn host_notes(b: HostInfo, c: HostInfo) -> Seq<NoteView> {
    (if b.kernel@ != c.kernel@ {
        seq![NoteView::Kernel(b.kernel@, c.kernel@)]
    } else {
        Seq::empty()
    }) + (if b.cpu_count != c.cpu_count {
        seq![NoteView::CpuCount(b.cpu_count, c.cpu_count)]
    } else {
        Seq::empty()
    }) + (if b.mem_total_bytes != c.mem_total_bytes {
        seq![NoteView::Memory(b.mem_total_bytes, c.mem_total_bytes)]
    } else {
        Seq::empty()
    })
}

/// The notes on two reports as a whole.
pub open spec fn report_notes(b: BenchReport, c: BenchReport) -> Seq<NoteView> {
    version_note(b.schema_version@, c.schema_version@) + host_notes(b.metadata.host, c.metadata.host)
}

fn note_reports(b: &BenchReport, c: &BenchReport) -> (r: Vec<Note>)
    ensures
        note_views(r@) == report_notes(*b, *c),
{
    let mut r: Vec<Note> = Vec::new();
    if let (Some(x), Some(y)) = (minor(b.schema_version.as_str()), minor(c.schema_version.as_str())) {
        if x != y {
            r.push(
                Note::NewerMinor {
                    baseline: b.schema_version.clone(),
                    current: c.schema_version.clone(),
                },
            );
        }
    }
    let old = &b.metadata.host;
    let new = &c.metadata.host;
    if !equal(old.kernel.as_str(), new.kernel.as_str()) {
        r.push(Note::Kernel { baseline: old.kernel.clone(), current: new.kernel.clone() });
    }
    if old.cpu_count != new.cpu_count {
        r.push(Note::CpuCount { baseline_cpus: old.cpu_count, current_cpus: new.cpu_count });
    }
    if old.mem_total_bytes != new.mem_total_bytes {
        r.push(
            Note::Memory {
                baseline_bytes: old.mem_total_bytes,
                current_bytes: new.mem_total_bytes,
            },
        );
    }
    assert(note_views(r@) =~= report_notes(*b, *c));
    r
}

pub open spec fn metric_names(diffs: Seq<DiffEntry>) -> Seq<Seq<char>> {
    diffs.map_values(|d: DiffEntry| d.metric@)
}

/// Whether the two reports may be compared.
pub open spec fn comparable(baseline: BenchReport, current: BenchReport) -> bool {
    &&& before(baseline.schema_version@, '.') == before(current.schema_version@, '.')
    &&& baseline.scenario@ == current.scenario@
}

/// Whether `diffs` describe every metric of the two reports, in alphabetical order.
pub open spec fn complete(
    diffs: Seq<DiffEntry>,
    b: Seq<MetricAggregate>,
    c: Seq<MetricAggregate>,
    on: Seq<char>,
    threshold: Double,
) -> bool {
    &&& increasing(metric_names(diffs))
    &&& forall|n: Seq<char>| #[trigger] metric_names(diffs).contains(n) <==> either_has(b, c, n)
    &&& forall|i: int|
        0 <= i < diffs.len() ==> #[trigger] describes(
            diffs[i],
            diffs[i].metric@,
            named(b, diffs[i].metric@),
            named(c, diffs[i].metric@),
            on,
            threshold,
        )
}

/// Whether `name` is the alphabetically first metric of the two reports.
pub open spec fn is_first_metric(
    name: Seq<char>,
    b: Seq<MetricAggregate>,
    c: Seq<MetricAggregate>,
) -> bool {
    &&& either_has(b, c, name)
    &&& forall|n: Seq<char>| #[trigger]
        either_has(b, c, n) ==> n == name || precedes(name, n)
}

/// Compares the `current` report with the `baseline` on the aggregate that `on` names. A metric
/// fails when it got worse by more than `threshold`, as a fraction of the baseline.
pub fn compare(baseline: &BenchReport, current: &BenchReport, on: &str, threshold: Double) -> (r:
    Comparison)
    ensures
        match r.outcome {
            Err(CompareError::SchemaMajor { baseline: x, current: y }) => {
                &&& before(baseline.schema_version@, '.') != before(current.schema_version@, '.')
                &&& x@ == baseline.schema_version@ && y@ == current.schema_version@
                &&& r.notes@.len() == 0
            },
            Err(CompareError::Scenario { baseline: x, current: y }) => {
                &&& before(baseline.schema_version@, '.') == before(current.schema_version@, '.')
                &&& baseline.scenario@ != current.scenario@
                &&& x@ == baseline.scenario@ && y@ == current.scenario@
                &&& r.notes@.len() == 0
            },
            Err(CompareError::UnknownAggregate { on: x }) => {
                &&& comparable(*baseline, *current)
                &&& !known_aggregate(on@)
                &&& x@ == on@
                &&& exists|first: Seq<char>| #[trigger]
                    is_first_metric(first, baseline.aggregates@, current.aggregates@)
                        && note_views(r.notes@) == report_notes(*baseline, *current)
                        + metric_note(baseline.aggregates@, current.aggregates@, first)
            },
            Ok(diffs) => {
                &&& comparable(*baseline, *current)
                &&& known_aggregate(on@) || diffs@.len() == 0
                &&& complete(
                    diffs@,
                    baseline.aggregates@,
                    current.aggregates@,
                    on@,
                    threshold,
                )
                &&& note_views(r.notes@) == report_notes(*baseline, *current) + metric_notes(
                    baseline.aggregates@,
                    current.aggregates@,
                    metric_names(diffs@),
                )
            },
        },
{
    if !equal(major(baseline.schema_version.as_str()), major(current.schema_version.as_str())) {
        return Comparison {
            notes: Vec::new(),
            outcome: Err(
                CompareError::SchemaMajor {
                    baseline: baseline.schema_version.clone(),
                    current: current.schema_version.clone(),
                },
            ),
        };
    }
    if !equal(baseline.scenario.as_str(), current.scenario.as_str()) {
        return Comparison {
            notes: Vec::new(),
            outcome: Err(
                CompareError::Scenario {
                    baseline: baseline.scenario.clone(),
                    current: current.scenario.clone(),
                },
            ),
        };
    }
    let b = &baseline.aggregates;
    let c = &current.aggregates;
    let mut notes: Vec<Note> = note_reports(baseline, current);
    let ghost first_notes = report_notes(*baseline, *current);
    let names = all_names(b, c);
    let ghost all = texts(names@);
    let mut diffs: Vec<DiffEntry> = Vec::new();
    let mut i: usize = 0;
    assert(all.take(0) == Seq::<Seq<char>>::empty());
    assert(metric_names(diffs@) == all.take(0));
    assert(first_notes + metric_notes(b@, c@, all.take(0)) == first_notes);
    while i < names.len()
        invariant
            i <= names.len(),
            comparable(*baseline, *current),
            all == texts(names@),
            increasing(all),
            forall|n: Seq<char>| #[trigger] all.contains(n) <==> either_has(b@, c@, n),
            b == &baseline.aggregates,
            c == &current.aggregates,
            first_notes == report_notes(*baseline, *current),
            i > 0 ==> known_aggregate(on@),
            diffs.len() == i,
            metric_names(diffs@) == all.take(i as int),
            forall|j: int|
                0 <= j < diffs.len() ==> #[trigger] describes(
                    diffs@[j],
                    diffs@[j].metric@,
                    named(b@, diffs@[j].metric@),
                    named(c@, diffs@[j].metric@),
                    on@,
                    threshold,
                ),
            note_views(notes@) == first_notes + metric_notes(b@, c@, all.take(i as int)),
        decreases names.len() - i,
    {
        let name = &names[i];
        let x = find_named(b, name);
        let y = find_named(c, name);
        let ghost done = note_views(notes@);
        let ghost extra = metric_note(b@, c@, name@);
        proof {
            assert(all[i as int] == name@);
            assert(all.contains(name@));
            assert(either_has(b@, c@, name@));
            assert(all.take(i + 1).drop_last() == all.take(i as int));
            assert(all.take(i + 1).last() == name@);
        }
        if x.is_some() && y.is_none() {
            notes.push(Note::Vanished { metric: name.clone() });
            assert(note_views(notes@) =~= done.push(NoteView::Vanished(name@)));
        } else if x.is_none() && y.is_some() {
            notes.push(Note::New { metric: name.clone() });
            assert(note_views(notes@) =~= done.push(NoteView::New(name@)));
        }
        assert(note_views(notes@) =~= done + extra);
        assert(done + extra =~= first_notes + metric_notes(b@, c@, all.take(i + 1)));
        match compare_metric(name, x, y, on, threshold) {
            Ok(d) => {
                let ghost entries = diffs@;
                diffs.push(d);
                proof {
                    assert(metric_names(diffs@) =~= metric_names(entries).push(name@));
                    assert(all.take(i + 1) =~= all.take(i as int).push(name@));
                    assert forall|j: int| 0 <= j < diffs.len() implies #[trigger] describes(
                        diffs@[j],
                        diffs@[j].metric@,
                        named(b@, diffs@[j].metric@),
                        named(c@, diffs@[j].metric@),
                        on@,
                        threshold,
                    ) by {
                        if j < i {
                            let e = entries[j];
                            assert(describes(
                                e,
                                e.metric@,
                                named(b@, e.metric@),
                                named(c@, e.metric@),
                                on@,
                                threshold,
                            ));
                        }
                    }
                }
            },
            Err(e) => {
                proof {
                    assert(i == 0);
                    assert(is_first_metric(name@, b@, c@)) by {
                        assert forall|n: Seq<char>| #[trigger] either_has(b@, c@, n) implies n
                            == name@ || precedes(name@, n) by {
                            assert(all.contains(n));
                            let k = choose|k: int| 0 <= k < all.len() && all[k] == n;
                            if k > 0 {
                                assert(precedes(all[0], all[k]));
                            }
                        }
                    }
                    assert(all.take(0).len() == 0);
                    assert(note_views(notes@) =~= first_notes + extra);
                }
                return Comparison { notes, outcome: Err(e) };
            },
        }
        i = i + 1;
    }
    proof {
        assert(all.take(names.len() as int) =~= all);
    }
    Comparison { notes, outcome: Ok(diffs) }
}

/// Whether some entry failed.
pub open spec fn has_failure(diffs: Seq<DiffEntry>) -> bool {
    exists|i: int| 0 <= i < diffs.len() && (#[trigger] diffs[i]).failed
}

/// Whether some metric regressed past the threshold.
pub fn any_failed(diffs: &Vec<DiffEntry>) -> (r: bool)
    ensures
        r == has_failure(diffs@),
{
    let mut i: usize = 0;
    while i < diffs.len()
        invariant
            i <= diffs.len(),
            forall|j: int| 0 <= j < i ==> !(#[trigger] diffs@[j]).failed,
        decreases diffs.len() - i,
    {
        if diffs[i].failed {
            return true;
        }
        i = i + 1;
    }
    false
}

/// Whether `current` is at least as good as `baseline`.
pub open spec fn no_worse(baseline: Double, current: Double, higher_is_better: bool) -> bool {
    if higher_is_better {
        baseline.less(current) || baseline.same(current)
    } else {
        current.less(baseline) || current.same(baseline)
    }
}

/// A positive change means that the current value is larger, a negative one that it is smaller:
/// a change never has the sign of the opposite direction.
pub proof fn law_change_sign(baseline: Double, current: Double)
    requires
        !baseline.nan(),
        !current.nan(),
    ensures
        current.rank() <= baseline.rank() ==> change(baseline, current).nan() || change(
            baseline,
            current,
        ).rank() <= 0,
        current.rank() >= baseline.rank() ==> change(baseline, current).nan() || change(
            baseline,
            current,
        ).rank() >= 0,
{
    let d = current.minus(baseline);
    let n = baseline.negated();
    let m = baseline.absolute();
    assert(n.magnitude() == baseline.magnitude());
    assert(m.magnitude() == baseline.magnitude() && !m.negative());
    if !baseline.zero() && baseline.finite() {
        if current.finite() {
            law_order_is_numeric(baseline, current);
            law_order_is_numeric(current, baseline);
            law_difference_sign(current, baseline);
        }
        law_quotient_sign(d, m);
    }
}

/// A comparison is one-sided: a metric that did not get worse does not fail, for any threshold that
/// is not negative.
pub proof fn law_improvements_never_fail(
    baseline: Double,
    current: Double,
    higher_is_better: bool,
    threshold: Double,
)
    requires
        no_worse(baseline, current, higher_is_better),
        threshold.nan() || threshold.rank() >= 0,
    ensures
        !threshold.less(regression(change(baseline, current), higher_is_better)),
{
    let q = change(baseline, current);
    law_change_sign(baseline, current);
    assert(q.negated().rank() == -q.rank());
    assert(q.negated().magnitude() == q.magnitude());
}

/// A value compared with itself does not fail, whatever it is.
pub proof fn law_unchanged_never_fails(value: Double, higher_is_better: bool, threshold: Double)
    requires
        threshold.nan() || threshold.rank() >= 0,
    ensures
        !threshold.less(regression(change(value, value), higher_is_better)),
{
    if !value.nan() {
        law_improvements_never_fail(value, value, higher_is_better, threshold);
    }
}

/// A regression is symmetric in the direction of a metric: what fails where larger values are
/// better is what fails, with the opposite change, where smaller ones are.
pub proof fn law_direction_flips(change: Double, threshold: Double)
    ensures
        threshold.less(regression(change, true)) <==> threshold.less(
            regression(change.negated(), false),
        ),
        !change.nan() ==> regression(change, true).rank() == -regression(change, false).rank(),
{
    assert(change.negated().magnitude() == change.magnitude());
}

/// A metric that only one of the reports has never makes a comparison fail.
pub proof fn law_unmatched_metrics_never_fail(
    diffs: Seq<DiffEntry>,
    b: Seq<MetricAggregate>,
    c: Seq<MetricAggregate>,
    on: Seq<char>,
    threshold: Double,
    i: int,
)
    requires
        complete(diffs, b, c, on, threshold),
        0 <= i < diffs.len(),
        named(b, diffs[i].metric@) is None || named(c, diffs[i].metric@) is None,
    ensures
        !diffs[i].failed,
{
    let d = diffs[i];
    assert(describes(d, d.metric@, named(b, d.metric@), named(c, d.metric@), on, threshold));
}

/// A report compared with itself has no failure, for any threshold that is not negative.
pub proof fn law_self_comparison_passes(
    diffs: Seq<DiffEntry>,
    aggregates: Seq<MetricAggregate>,
    on: Seq<char>,
    threshold: Double,
)
    requires
        complete(diffs, aggregates, aggregates, on, threshold),
        threshold.nan() || threshold.rank() >= 0,
    ensures
        !has_failure(diffs),
{
    assert forall|i: int| 0 <= i < diffs.len() implies !(#[trigger] diffs[i]).failed by {
        let d = diffs[i];
        let a = named(aggregates, d.metric@);
        assert(describes(d, d.metric@, a, a, on, threshold));
        if a is Some {
            assert(d.baseline == d.current);
            law_unchanged_never_fails(d.baseline, d.higher_is_better, threshold);
        }
    }
}

} // verus!
