//! Runs, pauses and the walk over descendants.

use boxlite_cli::bench::clock::{next_pause, Span};
use boxlite_cli::bench::host_info::HostInfo;
use boxlite_cli::bench::reaper::Reaper;
use boxlite_cli::bench::report::ReportMetadata;
use boxlite_cli::bench::runner::{
    check_counts, iteration_failure, progress_line, read_git_commit, start_line, summary_lines,
    Event, Phase, Run, RunError,
};
use boxlite_cli::bench::scenarios::common::Metrics;
use boxlite_cli::bench::{CompareArgs, RunArgs};
use boxlite_cli::names::NameMap;
use boxlite_cli::number::double::Double;

fn d(x: f64) -> Double {
    Double::from_bits(x.to_bits())
}

fn f(x: Double) -> f64 {
    f64::from_bits(x.to_bits())
}

fn ms(n: u64) -> Span {
    Span { secs: n / 1000, nanos: ((n % 1000) * 1_000_000) as u32 }
}

fn metadata() -> ReportMetadata {
    ReportMetadata {
        started_at: "2026-01-01T00:00:00+00:00".to_string(),
        label: Some("ci".to_string()),
        git_commit: "abc".to_string(),
        boxlite_version: "0.1".to_string(),
        host: HostInfo {
            kernel: String::new(),
            arch: String::new(),
            cpu_model: String::new(),
            cpu_count: 1,
            mem_total_bytes: 1,
        },
    }
}

fn start(runs: usize, warmup: usize) -> Run {
    Run::new(runs, warmup, "s".to_string(), metadata()).expect("counts are fine")
}

fn values(pairs: &[(&str, f64)]) -> Metrics {
    let mut m: Metrics = NameMap::new();
    for (name, x) in pairs {
        m = m.with(name, d(*x));
    }
    m
}

#[test]
fn runs_without_counting_samples_are_refused() {
    assert_eq!(check_counts(0, 0), Err(RunError::NoRuns));
    assert_eq!(check_counts(0, 5), Err(RunError::NoRuns));
    assert_eq!(check_counts(3, 3), Err(RunError::OnlyWarmup { warmup: 3, runs: 3 }));
    assert_eq!(check_counts(3, 2), Ok(()));
    assert_eq!(RunError::NoRuns.message(), "--runs must be ≥ 1");
    assert_eq!(
        RunError::OnlyWarmup { warmup: 4, runs: 3 }.message(),
        "--warmup (4) must be < --runs (3); otherwise every sample is discarded"
    );
    assert!(Run::new(1, 1, "s".to_string(), metadata()).is_err());
}

#[test]
fn samples_are_collected_and_aggregated() {
    let mut run = start(3, 1);
    assert_eq!(run.due(), Some((1, true)));
    run = run.completed(ms(1000), values(&[("x_ms", 100.0)]));
    assert_eq!(run.due(), Some((2, false)));
    run = run.completed(ms(10), values(&[("x_ms", 1.0), ("once_count", 7.0)]));
    assert_eq!(run.due(), Some((3, false)));
    run = run.completed(ms(30), values(&[("x_ms", 3.0)]));
    assert_eq!(run.due(), None);
    assert_eq!(run.phase, Phase::TearingDown { failed: false });
    run = run.noted(Event::TornDown);
    assert_eq!(run.phase, Phase::Succeeded);
    let report = run.finish();
    assert_eq!(report.scenario, "s");
    assert_eq!(report.schema_version, "1.0");
    assert_eq!((report.warmup_count, report.sample_count), (1, 2));
    assert_eq!(report.samples.len(), 3);
    assert!(report.samples[0].warmup && !report.samples[1].warmup);
    assert_eq!(report.samples[2].iteration, 3);
    assert_eq!(f(report.samples[2].wall_ms), 30.0);
    let names: Vec<&str> = report.aggregates.iter().map(|a| a.name.as_str()).collect();
    assert_eq!(names, vec!["once_count", "wall_ms", "x_ms"]);
    assert_eq!(report.aggregates[0].n, 1);
    assert_eq!(report.aggregates[1].n, 2);
    assert_eq!(f(report.aggregates[1].mean), 20.0);
    assert_eq!(f(report.aggregates[2].max), 3.0);
    let lines = summary_lines(&report);
    assert_eq!(lines[0], "📊 aggregates (n=2):");
    assert_eq!(
        lines[3],
        format!("  {:<32} p50={:>8.1} p90={:>8.1} p99={:>8.1} ({})", "x_ms", 1.0, 3.0, 3.0, "ms")
    );
    assert_eq!(lines.len(), 4);
}

#[test]
fn metrics_that_are_never_numbers_have_no_aggregate() {
    let mut run = start(1, 0);
    run = run.completed(ms(5), values(&[("nan_ms", f64::NAN)]));
    let report = run.noted(Event::TornDown).finish();
    let names: Vec<&str> = report.aggregates.iter().map(|a| a.name.as_str()).collect();
    assert_eq!(names, vec!["wall_ms"]);
}

#[test]
fn a_metric_named_like_the_wall_time_is_added_to_it() {
    let mut run = start(1, 0);
    run = run.completed(ms(5), values(&[("wall_ms", 7.0)]));
    let report = run.noted(Event::TornDown).finish();
    assert_eq!(report.aggregates.len(), 1);
    assert_eq!(report.aggregates[0].n, 2);
    assert_eq!(f(report.aggregates[0].max), 7.0);
}

#[test]
fn failures_are_torn_down_and_reaped() {
    let mut run = start(3, 0);
    run = run.completed(ms(5), values(&[]));
    run = run.noted(Event::Failed);
    assert_eq!(run.phase, Phase::TearingDown { failed: true });
    assert_eq!(run.due(), None);
    run = run.noted(Event::TornDown);
    assert_eq!(run.phase, Phase::Reaping);
    run = run.noted(Event::TornDown);
    assert_eq!(run.phase, Phase::Reaping);
    run = run.noted(Event::Reaped);
    assert_eq!(run.phase, Phase::Failed);
}

#[test]
fn progress_is_shown_for_each_iteration() {
    assert_eq!(progress_line(1, true, d(12.34)), "  iter   1 (warmup) wall=12.3ms");
    assert_eq!(progress_line(100, false, d(0.0)), "  iter 100          wall=0.0ms");
}

#[test]
fn runs_are_announced_and_failures_located() {
    assert_eq!(start_line("latency-clone", 10, 2), "🧪 bench: scenario=latency-clone runs=10 warmup=2");
    assert_eq!(
        iteration_failure(3, 10, "latency-clone"),
        "iteration 3/10 failed in scenario latency-clone"
    );
}

#[test]
fn commits_are_trimmed() {
    assert_eq!(read_git_commit(Some("abc123\n")), "abc123");
    assert_eq!(read_git_commit(Some(" \n")), "unknown");
    assert_eq!(read_git_commit(None), "unknown");
}

#[test]
fn defaults_of_the_arguments() {
    let run = RunArgs::new("latency".to_string());
    assert_eq!((run.runs, run.warmup), (10, 0));
    assert!(run.out.is_none() && run.label.is_none());
    let compare = CompareArgs::new("a".to_string(), "b".to_string());
    assert_eq!(f(compare.threshold), 0.20);
    assert_eq!(compare.on, "p99");
}

#[test]
fn spans_are_converted() {
    let s = Span { secs: 1, nanos: 500_000_000 };
    assert_eq!(f(s.as_secs()), 1.5);
    assert_eq!(f(s.as_ms()), 1500.0);
    assert_eq!(f(s.as_us()), 1_500_000.0);
    let odd = std::time::Duration::new(3, 123_456_789);
    let own = Span { secs: 3, nanos: 123_456_789 };
    assert_eq!(f(own.as_secs()), odd.as_secs_f64());
    assert_eq!(f(own.as_ms()), odd.as_secs_f64() * 1000.0);
}

#[test]
fn pauses_end_with_the_time() {
    assert_eq!(next_pause(ms(0), ms(100)), None);
    assert_eq!(next_pause(ms(50), ms(100)), Some(ms(50)));
    assert_eq!(next_pause(ms(100), ms(100)), Some(ms(100)));
    assert_eq!(next_pause(ms(2500), ms(1000)), Some(ms(1000)));
}

#[test]
fn descendants_are_visited_breadth_first() {
    let mut r = Reaper::new(Some("10 11 x 12\n"));
    assert_eq!(r.next(), Some(10));
    assert!(r.visit(Some("20"), Some("boxlite-shim\n")));
    assert_eq!(r.next(), Some(11));
    assert!(!r.visit(None, Some("bash\n")));
    assert_eq!(r.next(), Some(12));
    assert!(!r.visit(Some(""), None));
    assert_eq!(r.next(), Some(20));
    assert!(r.visit(None, Some("libkrun VM\n")));
    assert_eq!(r.next(), None);
    assert_eq!(
        r.message().unwrap(),
        "⚠️  reaped 2 orphan VM/shim descendant(s) after interrupted run"
    );
}

#[test]
fn nothing_is_said_when_nothing_was_reaped() {
    let mut r = Reaper::new(None);
    assert_eq!(r.next(), None);
    assert!(r.message().is_none());
}

#[test]
fn names_are_kept_in_order() {
    let m: NameMap<u64> = NameMap::new().with("b", 1).with("a", 2).with("b", 3).with("é", 4);
    assert_eq!(m.names(), vec!["a", "b", "é"]);
    assert_eq!(m.get("b"), Some(&3));
    assert_eq!(m.get("c"), None);
    assert_eq!(m.len(), 3);
}
