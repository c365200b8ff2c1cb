//! The course of a benchmark run: which iteration comes next, what is collected from it, and how
//! the run ends.
//!
//! A run goes through its iterations until one of them fails or all are done. Then the scenario
//! is torn down, on either path. After a failure the remaining descendants of the process are
//! killed, and only then is the failure reported.

use crate::bench::clock::{law_spans_are_numbers, Span};
use crate::bench::report::{BenchReport, MetricAggregate, ReportMetadata, Sample};
use crate::bench::stats::{aggregate, aggregates, kept};
use crate::names::{
    collected, entry_map, entry_names, increasing, lemma_entry_map, lemma_fresh_entry, precedes,
    texts, NameMap,
};
use crate::number::double::Double;
use crate::render::{
    align_left, align_right, decimal, decimal_text, fixed_text, format_fixed, left_aligned,
    right_aligned,
};
use crate::text::{chars_of, ends, stands_at, string_of, trim, trimmed};
use vstd::prelude::*;

verus! {

/// What an iteration of a scenario is given.
pub struct RunContext<'a, G> {
    /// The flags that the command line was invoked with.
    pub global: &'a G,
    /// The number of the iteration, counted from 1.
    pub iteration: usize,
    /// Whether the iteration is left out of the aggregates.
    pub warmup: bool,
}

/// What the teardown of a scenario is given.
pub struct TeardownContext<'a, G> {
    /// The flags that the command line was invoked with.
    pub global: &'a G,
}

/// Why a run cannot start.
#[derive(Clone, Copy, Debug, PartialEq, Eq, Structural)]
pub enum RunError {
    /// No iteration was asked for.
    NoRuns,
    /// Every iteration would be a warmup.
    OnlyWarmup { warmup: usize, runs: usize },
}

/// Whether a run of `runs` iterations, of which the first `warmup` do not count, makes sense.
pub fn check_counts(runs: usize, warmup: usize) -> (r: Result<(), RunError>)
    ensures
        match r {
            Ok(()) => warmup < runs,
            Err(RunError::NoRuns) => runs == 0,
            Err(RunError::OnlyWarmup { warmup: w, runs: n }) => {
                &&& 0 < runs <= warmup
                &&& w == warmup && n == runs
            },
        },
{
    if runs == 0 {
        Err(RunError::NoRuns)
    } else if warmup >= runs {
        Err(RunError::OnlyWarmup { warmup, runs })
    } else {
        Ok(())
    }
}

/// What a refused run is answered.
pub open spec fn run_error_text(e: RunError) -> Seq<char> {
    match e {
        RunError::NoRuns => "--runs must be ≥ 1"@,
        RunError::OnlyWarmup { warmup, runs } => "--warmup ("@ + decimal(warmup as nat)
            + ") must be < --runs ("@ + decimal(runs as nat)
            + "); otherwise every sample is discarded"@,
    }
}

impl RunError {
    pub fn message(self) -> (r: String)
        ensures
            r@ == run_error_text(self),
    {
        match self {
            RunError::NoRuns => "--runs must be ≥ 1".to_owned(),
            RunError::OnlyWarmup { warmup, runs } => {
                let mut r: String = "--warmup (".to_owned();
                r.append(decimal_text(warmup as u64).as_str());
                r.append(") must be < --runs (");
                r.append(decimal_text(runs as u64).as_str());
                r.append("); otherwise every sample is discarded");
                r
            },
        }
    }
}

/// Where a run stands.
#[derive(Clone, Copy, Debug, PartialEq, Eq, Structural)]
pub enum Phase {
    /// `done` iterations are complete, and the next one is due.
    Iterating { done: usize },
    /// The scenario is to be torn down.
    TearingDown { failed: bool },
    /// The remaining descendants of the process are to be killed.
    Reaping,
    /// The failure is to be reported.
    Failed,
    /// The report is to be written.
    Succeeded,
}

/// What happened.
#[derive(Clone, Copy, Debug, PartialEq, Eq, Structural)]
pub enum Event {
    /// The iteration that was due returned its metrics.
    Completed,
    /// The iteration returned an error, panicked, or was interrupted by a signal.
    Failed,
    /// The teardown was tried. A failing teardown is only warned about.
    TornDown,
    /// The descendants were dealt with.
    Reaped,
}

impl Phase {
    /// The phase that follows `event`, in a run of `runs` iterations. An event that does not
    /// belong to the phase changes nothing.
    pub open spec fn following(self, event: Event, runs: int) -> Phase {
        match (self, event) {
            (Phase::Iterating { done }, Event::Completed) => if done + 1 < runs {
                Phase::Iterating { done: (done + 1) as usize }
            } else {
                Phase::TearingDown { failed: false }
            },
            (Phase::Iterating { .. }, Event::Failed) => Phase::TearingDown { failed: true },
            (Phase::TearingDown { failed }, Event::TornDown) => if failed {
                Phase::Reaping
            } else {
                Phase::Succeeded
            },
            (Phase::Reaping, Event::Reaped) => Phase::Failed,
            _ => self,
        }
    }

    pub fn next(self, event: Event, runs: usize) -> (r: Phase)
        ensures
            r == self.following(event, runs as int),
    {
        match (self, event) {
            (Phase::Iterating { done }, Event::Completed) => if done < runs && done + 1 < runs {
                Phase::Iterating { done: done + 1 }
            } else {
                Phase::TearingDown { failed: false }
            },
            (Phase::Iterating { .. }, Event::Failed) => Phase::TearingDown { failed: true },
            (Phase::TearingDown { failed }, Event::TornDown) => if failed {
                Phase::Reaping
            } else {
                Phase::Succeeded
            },
            (Phase::Reaping, Event::Reaped) => Phase::Failed,
            _ => self,
        }
    }
}

/// The phase that a run of `runs` iterations is in after `events`.
pub open spec fn phase_after(events: Seq<Event>, runs: int) -> Phase
    decreases events.len(),
{
    if events.len() == 0 {
        Phase::Iterating { done: 0 }
    } else {
        phase_after(events.drop_last(), runs).following(events.last(), runs)
    }
}

/// How many of the events, taken one after another, completed an iteration.
pub open spec fn completions(events: Seq<Event>, runs: int) -> int
    decreases events.len(),
{
    if events.len() == 0 {
        0
    } else {
        completions(events.drop_last(), runs) + if phase_after(events.drop_last(), runs) is Iterating
            && events.last() == Event::Completed {
            1int
        } else {
            0
        }
    }
}

/// How many of the events, taken one after another, tore the scenario down.
pub open spec fn teardowns(events: Seq<Event>, runs: int) -> int
    decreases events.len(),
{
    if events.len() == 0 {
        0
    } else {
        teardowns(events.drop_last(), runs) + if phase_after(events.drop_last(), runs)
            is TearingDown && events.last() == Event::TornDown {
            1int
        } else {
            0
        }
    }
}

/// Whatever happens during a run, the scenario is torn down exactly once before the run is over,
/// and never before its iterations are. A run succeeds only with all its iterations complete.
pub proof fn law_teardown_runs_once(events: Seq<Event>, runs: int)
    requires
        0 < runs <= usize::MAX,
    ensures
        match phase_after(events, runs) {
            Phase::Iterating { done } => teardowns(events, runs) == 0 && completions(events, runs)
                == done < runs,
            Phase::TearingDown { failed } => teardowns(events, runs) == 0 && (failed
                <==> completions(events, runs) < runs) && completions(events, runs) <= runs,
            Phase::Reaping => teardowns(events, runs) == 1 && completions(events, runs) < runs,
            Phase::Failed => teardowns(events, runs) == 1 && completions(events, runs) < runs,
            Phase::Succeeded => teardowns(events, runs) == 1 && completions(events, runs) == runs,
        },
    decreases events.len(),
{
    if events.len() > 0 {
        law_teardown_runs_once(events.drop_last(), runs);
    }
}

/// What one sample adds to the values of the metric `name`: nothing for a warmup, otherwise the
/// duration of the iteration under `wall_ms`, and the value that the scenario measured.
pub open spec fn contribution(s: Sample, name: Seq<char>) -> Seq<Double> {
    if s.warmup {
        Seq::empty()
    } else {
        (if name == "wall_ms"@ {
            seq![s.wall_ms]
        } else {
            Seq::empty()
        }) + (if s.metrics@.dom().contains(name) {
            seq![s.metrics@[name]]
        } else {
            Seq::empty()
        })
    }
}

/// The values of the metric `name` over the samples that count, in the order of the samples.
pub open spec fn observed(samples: Seq<Sample>, name: Seq<char>) -> Seq<Double>
    decreases samples.len(),
{
    if samples.len() == 0 {
        Seq::empty()
    } else {
        observed(samples.drop_last(), name) + contribution(samples.last(), name)
    }
}

/// Whether the map holds exactly the values that the samples contribute.
pub open spec fn holds_observed(m: Map<Seq<char>, Vec<Double>>, samples: Seq<Sample>) -> bool {
    forall|n: Seq<char>|
        {
            &&& #[trigger] collected(m, n) == observed(samples, n)
            &&& m.dom().contains(n) <==> observed(samples, n).len() > 0
        }
}

/// A run and what it has collected so far.
#[derive(Debug)]
pub struct Run {
    pub runs: usize,
    pub warmup: usize,
    pub phase: Phase,
    pub report: BenchReport,
    pub values: NameMap<Vec<Double>>,
}

/// Adds the values of one sample that counts.
fn add_values(values: NameMap<Vec<Double>>, wall_ms: Double, metrics: &NameMap<Double>) -> (r:
    NameMap<Vec<Double>>)
    ensures
        forall|n: Seq<char>|
            {
                &&& #[trigger] collected(r@, n) == collected(values@, n) + (if n == "wall_ms"@ {
                    seq![wall_ms]
                } else {
                    Seq::empty()
                }) + (if metrics@.dom().contains(n) {
                    seq![metrics@[n]]
                } else {
                    Seq::empty()
                })
                &&& r@.dom().contains(n) <==> values@.dom().contains(n) || n == "wall_ms"@
                    || metrics@.dom().contains(n)
            },
{
    let ghost start = values@;
    let mut r: NameMap<Vec<Double>> = values.appended("wall_ms", wall_ms);
    let ghost walled = r@;
    let ghost entries = metrics.listed();
    let n: usize = metrics.len();
    let mut i: usize = 0;
    proof {
        assert(entries.take(0).len() == 0);
        assert forall|n: Seq<char>| #[trigger] collected(walled, n) == collected(start, n) + (if n
            == "wall_ms"@ {
            seq![wall_ms]
        } else {
            Seq::empty()
        }) by {
            if n == "wall_ms"@ {
            } else if start.dom().contains(n) {
                assert(walled[n] == start[n]);
            }
            assert(collected(start, n) + Seq::<Double>::empty() == collected(start, n));
            assert(collected(start, n) + seq![wall_ms] == collected(start, n).push(wall_ms));
        }
        assert forall|n: Seq<char>| #[trigger] collected(r@, n) == collected(walled, n)
            + if entry_map(entries.take(0)).dom().contains(n) {
            seq![entry_map(entries.take(0))[n]]
        } else {
            Seq::empty()
        } by {
            assert(collected(walled, n) + Seq::<Double>::empty() == collected(walled, n));
        }
    }
    while i < n
        invariant
            i <= n == entries.len(),
            entries == metrics.listed(),
            forall|n: Seq<char>|
                {
                    &&& #[trigger] collected(r@, n) == collected(walled, n) + if entry_map(
                        entries.take(i as int),
                    ).dom().contains(n) {
                        seq![entry_map(entries.take(i as int))[n]]
                    } else {
                        Seq::empty()
                    }
                    &&& r@.dom().contains(n) <==> walled.dom().contains(n) || entry_map(
                        entries.take(i as int),
                    ).dom().contains(n)
                },
        decreases n - i,
    {
        let e = metrics.entry(i);
        let ghost before_map = r@;
        let ghost seen = entry_map(entries.take(i as int));
        let ghost now = entry_map(entries.take(i + 1));
        r = r.appended(e.name.as_str(), e.value);
        proof {
            lemma_fresh_entry(entries, i as int);
            assert forall|n: Seq<char>|
                {
                    &&& #[trigger] collected(r@, n) == collected(walled, n) + if now.dom().contains(
                        n,
                    ) {
                        seq![now[n]]
                    } else {
                        Seq::empty()
                    }
                    &&& r@.dom().contains(n) <==> walled.dom().contains(n) || now.dom().contains(n)
                } by {
                assert(collected(before_map, n) == collected(walled, n) + if seen.dom().contains(
                    n,
                ) {
                    seq![seen[n]]
                } else {
                    Seq::empty()
                });
                if n == e.name@ {
                    assert(collected(walled, n) + Seq::<Double>::empty() == collected(walled, n));
                    assert(collected(walled, n) + seq![e.value] == collected(walled, n).push(
                        e.value,
                    ));
                } else if before_map.dom().contains(n) {
                    assert(r@[n] == before_map[n]);
                }
            }
        }
        i = i + 1;
    }
    proof {
        assert(entries.take(entries.len() as int) == entries);
        assert forall|n: Seq<char>|
            {
                &&& #[trigger] collected(r@, n) == collected(start, n) + (if n == "wall_ms"@ {
                    seq![wall_ms]
                } else {
                    Seq::empty()
                }) + (if metrics@.dom().contains(n) {
                    seq![metrics@[n]]
                } else {
                    Seq::empty()
                })
                &&& r@.dom().contains(n) <==> start.dom().contains(n) || n == "wall_ms"@
                    || metrics@.dom().contains(n)
            } by {
            assert(collected(walled, n) == collected(start, n) + (if n == "wall_ms"@ {
                seq![wall_ms]
            } else {
                Seq::empty()
            }));
        }
    }
    r
}

/// Whether the samples are numbered from 1 on, the first `warmup` of them being warmups.
pub open spec fn numbered(samples: Seq<Sample>, warmup: int) -> bool {
    forall|i: int|
        0 <= i < samples.len() ==> (#[trigger] samples[i]).iteration == i + 1 && samples[i].warmup
            == (i < warmup)
}

/// Whether the duration of every sample is a number.
pub open spec fn timed(samples: Seq<Sample>) -> bool {
    forall|i: int| 0 <= i < samples.len() ==> !(#[trigger] samples[i]).wall_ms.nan()
}

pub open spec fn aggregate_names(list: Seq<MetricAggregate>) -> Seq<Seq<char>> {
    list.map_values(|a: MetricAggregate| a.name@)
}

/// Whether `list` holds, in alphabetical order, an aggregate for each metric of which the samples
/// that count have a number, and no other.
pub open spec fn summarises(list: Seq<MetricAggregate>, samples: Seq<Sample>) -> bool {
    &&& increasing(aggregate_names(list))
    &&& forall|n: Seq<char>| #[trigger]
        aggregate_names(list).contains(n) <==> kept(observed(samples, n)).len() > 0
    &&& forall|i: int|
        0 <= i < list.len() ==> #[trigger] aggregates(
            list[i],
            list[i].name@,
            observed(samples, list[i].name@),
        )
}

impl Run {
    pub open spec fn wf(self) -> bool {
        &&& self.warmup < self.runs
        &&& self.report.samples@.len() <= self.runs
        &&& numbered(self.report.samples@, self.warmup as int)
        &&& holds_observed(self.values@, self.report.samples@)
        &&& timed(self.report.samples@)
        &&& match self.phase {
            Phase::Iterating { done } => done == self.report.samples@.len() && done < self.runs,
            Phase::TearingDown { failed } => failed || self.report.samples@.len() == self.runs,
            Phase::Succeeded => self.report.samples@.len() == self.runs,
            _ => true,
        }
    }

    /// A run that has not begun.
    pub fn new(runs: usize, warmup: usize, scenario: String, metadata: ReportMetadata) -> (r:
        Result<Run, RunError>)
        ensures
            match r {
                Ok(run) => {
                    &&& warmup < runs
                    &&& run.wf()
                    &&& run.runs == runs
                    &&& run.warmup == warmup
                    &&& run.phase == (Phase::Iterating { done: 0 })
                    &&& run.report.samples@.len() == 0
                    &&& run.report.aggregates@.len() == 0
                    &&& run.report.scenario == scenario
                    &&& run.report.metadata == metadata
                    &&& run.report.schema_version@ == "1.0"@
                },
                Err(RunError::NoRuns) => runs == 0,
                Err(RunError::OnlyWarmup { warmup: w, runs: n }) => {
                    &&& 0 < runs <= warmup
                    &&& w == warmup && n == runs
                },
            },
    {
        match check_counts(runs, warmup) {
            Err(e) => Err(e),
            Ok(()) => {
                let values: NameMap<Vec<Double>> = NameMap::new();
                Ok(
                    Run {
                        runs,
                        warmup,
                        phase: Phase::Iterating { done: 0 },
                        report: BenchReport::new(scenario, metadata),
                        values,
                    },
                )
            },
        }
    }

    /// The iteration that is due: its number, and whether it is a warmup.
    pub fn due(&self) -> (r: Option<(usize, bool)>)
        requires
            self.wf(),
        ensures
            match r {
                Some((iteration, warmup)) => {
                    &&& self.phase is Iterating
                    &&& iteration == self.report.samples@.len() + 1
                    &&& iteration <= self.runs
                    &&& warmup == (iteration <= self.warmup)
                },
                None => !(self.phase is Iterating),
            },
    {
        match self.phase {
            Phase::Iterating { done } => Some((done + 1, done < self.warmup)),
            _ => None,
        }
    }

    /// The run after the iteration that was due returned `metrics` after `elapsed`.
    pub fn completed(self, elapsed: Span, metrics: NameMap<Double>) -> (r: Run)
        requires
            self.wf(),
            self.phase is Iterating,
        ensures
            r.wf(),
            r.runs == self.runs,
            r.warmup == self.warmup,
            r.phase == self.phase.following(Event::Completed, self.runs as int),
            r.report.samples@ == self.report.samples@.push(
                (Sample {
                    iteration: (self.report.samples@.len() + 1) as usize,
                    warmup: self.report.samples@.len() < self.warmup,
                    wall_ms: elapsed.milliseconds(),
                    metrics,
                }),
            ),
            r.report.aggregates == self.report.aggregates,
            r.report.scenario == self.report.scenario,
            r.report.metadata == self.report.metadata,
            r.report.schema_version == self.report.schema_version,
    {
        let done: usize = self.report.samples.len();
        let warmup: bool = done < self.warmup;
        let wall_ms: Double = elapsed.as_ms();
        let ghost before_samples = self.report.samples@;
        let ghost start = self.values@;
        let values = if warmup {
            self.values
        } else {
            add_values(self.values, wall_ms, &metrics)
        };
        let sample = Sample { iteration: done + 1, warmup, wall_ms, metrics };
        let mut report = self.report;
        report.samples.push(sample);
        proof {
            let after = report.samples@;
            assert(after.drop_last() == before_samples);
            assert(after.last() == sample);
            law_spans_are_numbers(elapsed);
            assert forall|i: int| 0 <= i < after.len() implies !(#[trigger] after[i]).wall_ms.nan() by {
                if i < before_samples.len() {
                    assert(after[i] == before_samples[i]);
                }
            }
            assert forall|n: Seq<char>|
                {
                    &&& #[trigger] collected(values@, n) == observed(after, n)
                    &&& values@.dom().contains(n) <==> observed(after, n).len() > 0
                } by {
                assert(collected(start, n) == observed(before_samples, n));
                assert(observed(after, n) == observed(before_samples, n) + contribution(sample, n));
                if warmup {
                    assert(observed(after, n) =~= observed(before_samples, n));
                } else {
                    assert(collected(values@, n) =~= observed(after, n));
                }
            }
        }
        Run {
            runs: self.runs,
            warmup: self.warmup,
            phase: self.phase.next(Event::Completed, self.runs),
            report,
            values,
        }
    }

    /// The run after anything but a completed iteration.
    pub fn noted(self, event: Event) -> (r: Run)
        requires
            self.wf(),
            event != Event::Completed,
        ensures
            r.wf(),
            r.runs == self.runs,
            r.warmup == self.warmup,
            r.phase == self.phase.following(event, self.runs as int),
            r.report == self.report,
            r.values == self.values,
    {
        let phase: Phase = self.phase.next(event, self.runs);
        Run {
            runs: self.runs,
            warmup: self.warmup,
            phase,
            report: self.report,
            values: self.values,
        }
    }

    /// The report of a run that succeeded.
    pub fn finish(self) -> (r: BenchReport)
        requires
            self.wf(),
            self.phase == Phase::Succeeded,
        ensures
            r.samples == self.report.samples,
            r.samples@.len() == self.runs,
            r.warmup_count == self.warmup,
            r.sample_count == self.runs - self.warmup,
            summarises(r.aggregates@, r.samples@),
            aggregate_names(r.aggregates@).contains("wall_ms"@),
            r.scenario == self.report.scenario,
            r.metadata == self.report.metadata,
            r.schema_version == self.report.schema_version,
    {
        let Run { runs, warmup, phase: _, report, values } = self;
        let ghost samples = report.samples@;
        let ghost entries = values.listed();
        let ghost names = entry_names(entries);
        let n: usize = values.len();
        let mut list: Vec<MetricAggregate> = Vec::new();
        let mut i: usize = 0;
        while i < n
            invariant
                i <= n == entries.len(),
                entries == values.listed(),
                names == entry_names(entries),
                holds_observed(values@, samples),
                i > 0 ==> increasing(names),
                increasing(aggregate_names(list@)),
                forall|k: int|
                    0 <= k < list.len() ==> #[trigger] aggregates(
                        list@[k],
                        list@[k].name@,
                        observed(samples, list@[k].name@),
                    ),
                forall|m: Seq<char>| #[trigger]
                    aggregate_names(list@).contains(m) <==> exists|k: int|
                        0 <= k < i && #[trigger] names[k] == m && kept(observed(samples, m)).len()
                            > 0,
            decreases n - i,
        {
            let e = values.entry(i);
            let ghost so_far = list@;
            let ghost old_names = aggregate_names(list@);
            proof {
                lemma_entry_map(entries);
                assert(values@.dom().contains(entries[i as int].name@));
                assert(names[i as int] == e.name@);
                assert(collected(values@, e.name@) == observed(samples, e.name@));
            }
            match aggregate(e.name.as_str(), e.value.as_slice()) {
                Some(a) => {
                    list.push(a);
                    proof {
                        let now = aggregate_names(list@);
                        assert(now =~= old_names.push(e.name@));
                        assert forall|x: int, y: int| 0 <= x < y < now.len() implies precedes(
                            #[trigger] now[x],
                            #[trigger] now[y],
                        ) by {
                            if y < old_names.len() {
                                assert(precedes(old_names[x], old_names[y]));
                            } else {
                                assert(old_names.contains(old_names[x]));
                                let k = choose|k: int|
                                    0 <= k < i && #[trigger] names[k] == old_names[x] && kept(
                                        observed(samples, old_names[x]),
                                    ).len() > 0;
                                assert(precedes(names[k], names[i as int]));
                            }
                        }
                        assert forall|m: Seq<char>| #[trigger] now.contains(m) <==> exists|k: int|
                            0 <= k < i + 1 && #[trigger] names[k] == m && kept(
                                observed(samples, m),
                            ).len() > 0 by {
                            if now.contains(m) {
                                let k = choose|k: int| 0 <= k < now.len() && now[k] == m;
                                if k < old_names.len() {
                                    assert(old_names.contains(m)) by {
                                        assert(old_names[k] == m);
                                    }
                                } else {
                                    assert(names[i as int] == m);
                                }
                            }
                            if exists|k: int|
                                0 <= k < i + 1 && #[trigger] names[k] == m && kept(
                                    observed(samples, m),
                                ).len() > 0 {
                                let k = choose|k: int|
                                    0 <= k < i + 1 && #[trigger] names[k] == m && kept(
                                        observed(samples, m),
                                    ).len() > 0;
                                if k < i {
                                    assert(old_names.contains(m));
                                    let z = choose|z: int|
                                        0 <= z < old_names.len() && old_names[z] == m;
                                    assert(now[z] == m);
                                } else {
                                    assert(now[old_names.len() as int] == m);
                                }
                            }
                        }
                        assert forall|k: int| 0 <= k < list.len() implies #[trigger] aggregates(
                            list@[k],
                            list@[k].name@,
                            observed(samples, list@[k].name@),
                        ) by {
                            if k < so_far.len() {
                                assert(aggregates(
                                    so_far[k],
                                    so_far[k].name@,
                                    observed(samples, so_far[k].name@),
                                ));
                            }
                        }
                    }
                },
                None => {
                    proof {
                        assert forall|m: Seq<char>| #[trigger] old_names.contains(m) <==> exists|
                            k: int,
                        |
                            0 <= k < i + 1 && #[trigger] names[k] == m && kept(
                                observed(samples, m),
                            ).len() > 0 by {
                            if exists|k: int|
                                0 <= k < i + 1 && #[trigger] names[k] == m && kept(
                                    observed(samples, m),
                                ).len() > 0 {
                                let k = choose|k: int|
                                    0 <= k < i + 1 && #[trigger] names[k] == m && kept(
                                        observed(samples, m),
                                    ).len() > 0;
                                assert(k < i);
                            }
                        }
                    }
                },
            }
            i = i + 1;
        }
        proof {
            let all = aggregate_names(list@);
            if n > 0 {
                lemma_entry_map(entries);
            }
            assert forall|m: Seq<char>| #[trigger] all.contains(m) <==> kept(
                observed(samples, m),
            ).len() > 0 by {
                assert(collected(values@, m) == observed(samples, m));
                if kept(observed(samples, m)).len() > 0 {
                    lemma_kept_len(observed(samples, m));
                    assert(values@.dom().contains(m));
                    let k = choose|k: int| 0 <= k < entries.len() && #[trigger] entries[k].name@
                        == m;
                    assert(names[k] == m);
                }
            }
            law_wall_time_is_always_aggregated(samples, warmup as int);
        }
        BenchReport {
            schema_version: report.schema_version,
            scenario: report.scenario,
            metadata: report.metadata,
            sample_count: runs - warmup,
            warmup_count: warmup,
            samples: report.samples,
            aggregates: list,
        }
    }
}

proof fn lemma_kept_len(s: Seq<Double>)
    ensures
        kept(s).len() <= s.len(),
    decreases s.len(),
{
    if s.len() > 0 {
        lemma_kept_len(s.drop_last());
    }
}

proof fn lemma_observed_adds(front: Seq<Sample>, back: Seq<Sample>, name: Seq<char>)
    ensures
        observed(front + back, name) == observed(front, name) + observed(back, name),
    decreases back.len(),
{
    if back.len() == 0 {
        assert(front + back == front);
        assert(observed(front, name) + observed(back, name) == observed(front, name));
    } else {
        let all = front + back;
        assert(all.drop_last() == front + back.drop_last());
        assert(all.last() == back.last());
        lemma_observed_adds(front, back.drop_last(), name);
        assert(observed(all, name) =~= observed(front, name) + observed(back, name));
    }
}

proof fn lemma_warmups_observe_nothing(samples: Seq<Sample>, name: Seq<char>)
    requires
        forall|i: int| 0 <= i < samples.len() ==> (#[trigger] samples[i]).warmup,
    ensures
        observed(samples, name) == Seq::<Double>::empty(),
    decreases samples.len(),
{
    if samples.len() > 0 {
        assert(samples[samples.len() - 1].warmup);
        assert forall|i: int| 0 <= i < samples.drop_last().len() implies (
        #[trigger] samples.drop_last()[i]).warmup by {
            assert(samples[i].warmup);
        }
        lemma_warmups_observe_nothing(samples.drop_last(), name);
        assert(observed(samples, name) =~= Seq::<Double>::empty());
    }
}

/// Warmup iterations stay in the report's samples and have no part in its aggregates: the values
/// of every metric are those of the iterations behind the warmups.
pub proof fn law_warmups_do_not_count(samples: Seq<Sample>, warmup: int, name: Seq<char>)
    requires
        0 <= warmup <= samples.len(),
        numbered(samples, warmup),
    ensures
        observed(samples, name) == observed(samples.skip(warmup), name),
{
    let front = samples.take(warmup);
    let back = samples.skip(warmup);
    assert(samples == front + back);
    lemma_observed_adds(front, back, name);
    assert forall|i: int| 0 <= i < front.len() implies (#[trigger] front[i]).warmup by {
        assert(samples[i].warmup);
    }
    lemma_warmups_observe_nothing(front, name);
    assert(Seq::<Double>::empty() + observed(back, name) == observed(back, name));
}

proof fn lemma_kept_holds(s: Seq<Double>, i: int)
    requires
        0 <= i < s.len(),
        !s[i].nan(),
    ensures
        kept(s).len() > 0,
    decreases s.len(),
{
    if i < s.len() - 1 {
        lemma_kept_holds(s.drop_last(), i);
    }
}

/// Every sample that counts adds its duration to `wall_ms`, and that is a number, so that each
/// scenario has at least that one aggregate to compare.
pub proof fn law_wall_time_is_always_aggregated(samples: Seq<Sample>, warmup: int)
    requires
        0 <= warmup < samples.len(),
        numbered(samples, warmup),
        timed(samples),
    ensures
        kept(observed(samples, "wall_ms"@)).len() > 0,
        forall|list: Seq<MetricAggregate>| #[trigger]
            summarises(list, samples) ==> aggregate_names(list).contains("wall_ms"@),
{
    let last = samples.last();
    let front = observed(samples.drop_last(), "wall_ms"@);
    let all = observed(samples, "wall_ms"@);
    assert(!samples[samples.len() - 1].warmup);
    assert(all == front + contribution(last, "wall_ms"@));
    assert(all[front.len() as int] == last.wall_ms);
    lemma_kept_holds(all, front.len() as int);
}

/// The line that opens a run.
pub open spec fn start_text(scenario: Seq<char>, runs: nat, warmup: nat) -> Seq<char> {
    "🧪 bench: scenario="@ + scenario + " runs="@ + decimal(runs) + " warmup="@ + decimal(warmup)
}

pub fn start_line(scenario: &str, runs: usize, warmup: usize) -> (r: String)
    ensures
        r@ == start_text(scenario@, runs as nat, warmup as nat),
{
    let mut r: String = "🧪 bench: scenario=".to_owned();
    r.append(scenario);
    r.append(" runs=");
    r.append(decimal_text(runs as u64).as_str());
    r.append(" warmup=");
    r.append(decimal_text(warmup as u64).as_str());
    r
}

/// What is said in front of the error of an iteration.
pub open spec fn iteration_failure_text(iteration: nat, runs: nat, scenario: Seq<char>) -> Seq<
    char,
> {
    "iteration "@ + decimal(iteration) + "/"@ + decimal(runs) + " failed in scenario "@ + scenario
}

pub fn iteration_failure(iteration: usize, runs: usize, scenario: &str) -> (r: String)
    ensures
        r@ == iteration_failure_text(iteration as nat, runs as nat, scenario@),
{
    let mut r: String = "iteration ".to_owned();
    r.append(decimal_text(iteration as u64).as_str());
    r.append("/");
    r.append(decimal_text(runs as u64).as_str());
    r.append(" failed in scenario ");
    r.append(scenario);
    r
}

/// The line that reports a completed iteration.
pub open spec fn progress_text(iteration: nat, warmup: bool, wall_ms: Double) -> Seq<char> {
    "  iter "@ + right_aligned(decimal(iteration), 3) + (if warmup {
        " (warmup)"@
    } else {
        "         "@
    }) + " wall="@ + fixed_text(wall_ms, 1) + "ms"@
}

pub fn progress_line(iteration: usize, warmup: bool, wall_ms: Double) -> (r: String)
    ensures
        r@ == progress_text(iteration as nat, warmup, wall_ms),
{
    let number = decimal_text(iteration as u64);
    let mut r: String = "  iter ".to_owned();
    r.append(align_right(number.as_str(), 3).as_str());
    if warmup {
        r.append(" (warmup)");
    } else {
        r.append("         ");
    }
    r.append(" wall=");
    r.append(format_fixed(wall_ms, 1).as_str());
    r.append("ms");
    r
}

/// The line that sums up one metric.
pub open spec fn aggregate_text(a: MetricAggregate) -> Seq<char> {
    "  "@ + left_aligned(a.name@, 32) + " p50="@ + right_aligned(fixed_text(a.p50, 1), 8)
        + " p90="@ + right_aligned(fixed_text(a.p90, 1), 8) + " p99="@ + right_aligned(
        fixed_text(a.p99, 1),
        8,
    ) + " ("@ + a.unit@ + ")"@
}

/// The lines that sum up a report: how many samples counted, and its metrics.
pub open spec fn summary_text(report: BenchReport) -> Seq<Seq<char>> {
    seq!["📊 aggregates (n="@ + decimal(report.sample_count as nat) + "):"@]
        + report.aggregates@.map_values(|a: MetricAggregate| aggregate_text(a))
}

fn aggregate_line(a: &MetricAggregate) -> (r: String)
    ensures
        r@ == aggregate_text(*a),
{
    let mut r: String = "  ".to_owned();
    r.append(align_left(a.name.as_str(), 32).as_str());
    r.append(" p50=");
    r.append(align_right(format_fixed(a.p50, 1).as_str(), 8).as_str());
    r.append(" p90=");
    r.append(align_right(format_fixed(a.p90, 1).as_str(), 8).as_str());
    r.append(" p99=");
    r.append(align_right(format_fixed(a.p99, 1).as_str(), 8).as_str());
    r.append(" (");
    r.append(a.unit.as_str());
    r.append(")");
    r
}

pub fn summary_lines(report: &BenchReport) -> (r: Vec<String>)
    ensures
        texts(r@) == summary_text(*report),
{
    let mut first: String = "📊 aggregates (n=".to_owned();
    first.append(decimal_text(report.sample_count as u64).as_str());
    first.append("):");
    let mut r: Vec<String> = Vec::new();
    r.push(first);
    let list = &report.aggregates;
    let ghost head = seq![first@];
    let ghost rows = list@.map_values(|a: MetricAggregate| aggregate_text(a));
    assert(texts(r@) =~= head + rows.take(0));
    let mut i: usize = 0;
    while i < list.len()
        invariant
            i <= list.len(),
            list == &report.aggregates,
            rows == list@.map_values(|a: MetricAggregate| aggregate_text(a)),
            texts(r@) == head + rows.take(i as int),
        decreases list.len() - i,
    {
        let ghost done = texts(r@);
        let line = aggregate_line(&list[i]);
        r.push(line);
        proof {
            assert(texts(r@) =~= done.push(line@));
            assert(rows[i as int] == line@);
            assert(done.push(line@) =~= head + rows.take(i + 1));
        }
        i = i + 1;
    }
    assert(rows.take(list.len() as int) =~= rows);
    r
}

/// What `git rev-parse HEAD` printed, if it could be run and succeeded.
pub open spec fn commit_text(printed: Option<Seq<char>>) -> Seq<char> {
    match printed {
        Some(text) => if trimmed(text).len() > 0 {
            trimmed(text)
        } else {
            "unknown"@
        },
        None => "unknown"@,
    }
}

/// The commit that a report names, from what git printed if it succeeded.
pub fn read_git_commit(printed: Option<&str>) -> (r: String)
    ensures
        r@ == commit_text(
            match printed {
                Some(text) => Some(text@),
                None => None,
            },
        ),
{
    match printed {
        Some(text) => {
            let v = chars_of(text);
            let t = trim(&v);
            if t.len() > 0 {
                string_of(&t)
            } else {
                "unknown".to_owned()
            }
        },
        None => "unknown".to_owned(),
    }
}

/// A sample more adds to the values of a metric what it measured of it, behind the values of the
/// samples before: nothing if it is a warmup, its duration under `wall_ms`, and the value that the
/// scenario gave the metric, if it gave one.
pub proof fn law_sample_adds_its_values(samples: Seq<Sample>, s: Sample, name: Seq<char>)
    ensures
        s.warmup ==> observed(samples.push(s), name) == observed(samples, name),
        !s.warmup && name != "wall_ms"@ && s.metrics@.contains_key(name) ==> observed(
            samples.push(s),
            name,
        ) == observed(samples, name).push(s.metrics@[name]),
        !s.warmup && name != "wall_ms"@ && !s.metrics@.contains_key(name) ==> observed(
            samples.push(s),
            name,
        ) == observed(samples, name),
        !s.warmup && name == "wall_ms"@ && !s.metrics@.contains_key(name) ==> observed(
            samples.push(s),
            name,
        ) == observed(samples, name).push(s.wall_ms),
        !s.warmup && name == "wall_ms"@ && s.metrics@.contains_key(name) ==> observed(
            samples.push(s),
            name,
        ) == observed(samples, name).push(s.wall_ms).push(s.metrics@[name]),
        observed(Seq::empty(), name) == Seq::<Double>::empty(),
{
    let all = samples.push(s);
    let before = observed(samples, name);
    assert(all.drop_last() =~= samples);
    assert(observed(all, name) =~= before + contribution(s, name));
    assert(before + Seq::<Double>::empty() =~= before);
    if !s.warmup {
        if name == "wall_ms"@ && s.metrics@.contains_key(name) {
            assert(observed(all, name) =~= before.push(s.wall_ms).push(s.metrics@[name]));
        } else if name == "wall_ms"@ {
            assert(observed(all, name) =~= before.push(s.wall_ms));
        } else if s.metrics@.contains_key(name) {
            assert(observed(all, name) =~= before.push(s.metrics@[name]));
        }
    }
}

/// Where every sample counts and measured the metric, its values are theirs, one for one.
pub proof fn law_values_are_those_of_the_samples(samples: Seq<Sample>, name: Seq<char>)
    requires
        forall|i: int|
            0 <= i < samples.len() ==> !(#[trigger] samples[i]).warmup
                && samples[i].metrics@.contains_key(name),
        name != "wall_ms"@,
    ensures
        observed(samples, name).len() == samples.len(),
        forall|i: int|
            0 <= i < samples.len() ==> #[trigger] observed(samples, name)[i]
                == samples[i].metrics@[name],
    decreases samples.len(),
{
    if samples.len() > 0 {
        let front = samples.drop_last();
        assert forall|i: int| 0 <= i < front.len() implies !(#[trigger] front[i]).warmup
            && front[i].metrics@.contains_key(name) by {
            assert(!samples[i].warmup);
        }
        law_values_are_those_of_the_samples(front, name);
        assert(!samples[samples.len() - 1].warmup);
        law_sample_adds_its_values(front, samples.last(), name);
        assert(front.push(samples.last()) =~= samples);
        assert forall|i: int| 0 <= i < samples.len() implies #[trigger] observed(samples, name)[i]
            == samples[i].metrics@[name] by {
            if i < front.len() {
                assert(observed(front, name)[i] == front[i].metrics@[name]);
            }
        }
    }
}

/// A run of which every iteration completes goes through all of them in turn, is torn down, and
/// succeeds. One that fails in an iteration is torn down, reaps what is left and then fails.
pub proof fn law_phases_follow_the_plan(n: nat, runs: int)
    requires
        0 < runs <= usize::MAX,
    ensures
        n < runs ==> phase_after(completed(n), runs) == (Phase::Iterating { done: n as usize }),
        phase_after(completed(runs as nat), runs) == (Phase::TearingDown { failed: false }),
        phase_after(completed(runs as nat).push(Event::TornDown), runs) == Phase::Succeeded,
        n < runs ==> {
            let failing = completed(n).push(Event::Failed);
            &&& phase_after(failing, runs) == (Phase::TearingDown { failed: true })
            &&& phase_after(failing.push(Event::TornDown), runs) == Phase::Reaping
            &&& phase_after(failing.push(Event::TornDown).push(Event::Reaped), runs)
                == Phase::Failed
        },
{
    lemma_completed(n, runs);
    lemma_completed((runs - 1) as nat, runs);
    let all = completed(runs as nat);
    assert(all.drop_last() =~= completed((runs - 1) as nat));
    assert(all.push(Event::TornDown).drop_last() =~= all);
    let failing = completed(n).push(Event::Failed);
    assert(failing.drop_last() =~= completed(n));
    let torn = failing.push(Event::TornDown);
    assert(torn.drop_last() =~= failing);
    assert(torn.push(Event::Reaped).drop_last() =~= torn);
}

/// `n` iterations that completed.
pub open spec fn completed(n: nat) -> Seq<Event> {
    Seq::new(n, |i: int| Event::Completed)
}

proof fn lemma_completed(n: nat, runs: int)
    requires
        0 < runs <= usize::MAX,
    ensures
        n < runs ==> phase_after(completed(n), runs) == (Phase::Iterating { done: n as usize }),
    decreases n,
{
    if n > 0 {
        lemma_completed((n - 1) as nat, runs);
        assert(completed(n).drop_last() =~= completed((n - 1) as nat));
    }
}

/// The line that sums up a metric holds each percentile behind its own label, and ends with the
/// unit.
pub proof fn law_summary_labels_its_percentiles(a: MetricAggregate)
    requires
        a.name@.len() <= 32,
    ensures
        ({
            let text = aggregate_text(a);
            let p50 = " p50="@ + right_aligned(fixed_text(a.p50, 1), 8);
            let p90 = " p90="@ + right_aligned(fixed_text(a.p90, 1), 8);
            let p99 = " p99="@ + right_aligned(fixed_text(a.p99, 1), 8);
            &&& stands_at(text, a.name@, 2)
            &&& stands_at(text, p50, 34)
            &&& stands_at(text, p90, 34int + p50.len())
            &&& stands_at(text, p99, 34int + p50.len() + p90.len())
            &&& ends(text, " ("@ + a.unit@ + ")"@)
        }),
{
    reveal_strlit("  ");
    let text = aggregate_text(a);
    let p50 = " p50="@ + right_aligned(fixed_text(a.p50, 1), 8);
    let p90 = " p90="@ + right_aligned(fixed_text(a.p90, 1), 8);
    let p99 = " p99="@ + right_aligned(fixed_text(a.p99, 1), 8);
    let name = left_aligned(a.name@, 32);
    let unit = " ("@ + a.unit@ + ")"@;
    assert(name.len() == 32);
    assert(text =~= "  "@ + name + p50 + p90 + p99 + unit);
    assert(text.subrange(2, 2int + a.name@.len()) =~= a.name@);
    assert(text.subrange(34, 34int + p50.len()) =~= p50);
    let i = 34 + p50.len() as int;
    assert(text.subrange(i, i + p90.len()) =~= p90);
    let j = i + p90.len() as int;
    assert(text.subrange(j, j + p99.len()) =~= p99);
    assert(text.skip(text.len() - unit.len()) =~= unit);
}

} // verus!
