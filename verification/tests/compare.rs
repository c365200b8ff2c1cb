//! Comparing reports.

use boxlite_cli::bench::compare::{
    any_failed, compare, delta_ratio, major, pick, regression_ratio, CompareError, Note,
};
use boxlite_cli::bench::host_info::HostInfo;
use boxlite_cli::bench::report::{BenchReport, MetricAggregate, ReportMetadata};
use boxlite_cli::bench::stats::aggregate;
use boxlite_cli::bench::table::{refusal, status, table_lines};
use boxlite_cli::number::double::Double;

fn d(x: f64) -> Double {
    Double::from_bits(x.to_bits())
}

fn f(x: Double) -> f64 {
    f64::from_bits(x.to_bits())
}

fn report(scenario: &str, metrics: &[(&str, f64)]) -> BenchReport {
    let metadata = ReportMetadata {
        started_at: "2026-01-01T00:00:00+00:00".to_string(),
        label: None,
        git_commit: "abc".to_string(),
        boxlite_version: "0.1".to_string(),
        host: HostInfo {
            kernel: String::new(),
            arch: String::new(),
            cpu_model: String::new(),
            cpu_count: 1,
            mem_total_bytes: 1,
        },
    };
    let mut r = BenchReport::new(scenario.to_string(), metadata);
    for (name, value) in metrics {
        r.aggregates.push(aggregate(name, &[d(*value)]).unwrap());
    }
    r
}

#[test]
fn major_extracts_first_component() {
    assert_eq!(major("1.0"), "1");
    assert_eq!(major("2.4"), "2");
    assert_eq!(major("custom"), "custom");
}

#[test]
fn major_of_odd_versions() {
    assert_eq!(major(""), "");
    assert_eq!(major(".5"), "");
    assert_eq!(major("1.2.3"), "1");
    assert_eq!(major("é.1"), "é");
}

/// A fall in throughput is a regression, and so is a rise in latency.
#[test]
fn regression_ratio_flips_for_higher_is_better() {
    // From 1000 to 800 requests per second: a drop by 20%.
    let delta = delta_ratio(d(1000.0), d(800.0));
    let regression = f(regression_ratio(delta, true));
    assert!(
        regression > 0.20 - 1e-9,
        "20% RPS drop must cross a 20% threshold; got {regression}"
    );

    // From 800 to 1000 requests per second: a gain by 25%.
    let delta = delta_ratio(d(800.0), d(1000.0));
    let regression = f(regression_ratio(delta, true));
    assert!(
        regression < 0.0,
        "25% RPS gain must NOT be flagged as regression; got {regression}"
    );

    // From 100 ms to 120 ms.
    let delta = delta_ratio(d(100.0), d(120.0));
    let regression = f(regression_ratio(delta, false));
    assert!(
        regression > 0.20 - 1e-9,
        "20% latency increase must cross threshold; got {regression}"
    );
}

#[test]
fn pick_known_aggregates() {
    let agg = MetricAggregate {
        name: "x_ms".into(),
        unit: "ms".into(),
        higher_is_better: false,
        min: d(1.0),
        p50: d(2.0),
        p90: d(3.0),
        p99: d(4.0),
        max: d(5.0),
        mean: d(2.5),
        stdev: d(0.5),
        n: 10,
    };
    assert_eq!(f(pick(&agg, "p99").unwrap()), 4.0);
    assert_eq!(f(pick(&agg, "mean").unwrap()), 2.5);
    assert!(pick(&agg, "p95").is_err());
    assert_eq!(f(pick(&agg, "min").unwrap()), 1.0);
    assert_eq!(f(pick(&agg, "p50").unwrap()), 2.0);
    assert_eq!(f(pick(&agg, "p90").unwrap()), 3.0);
    assert_eq!(f(pick(&agg, "max").unwrap()), 5.0);
}

#[test]
fn changes_are_relative_to_the_baseline() {
    assert_eq!(f(delta_ratio(d(100.0), d(110.0))), (110.0 - 100.0) / 100.0);
    assert_eq!(f(delta_ratio(d(0.0), d(0.0))), 0.0);
    assert_eq!(f(delta_ratio(d(0.0), d(3.0))), f64::INFINITY);
    assert!(delta_ratio(d(f64::NAN), d(1.0)).is_nan());
}

#[test]
fn changes_have_the_sign_of_their_direction() {
    assert_eq!(f(delta_ratio(d(0.0), d(-1.0))), f64::NEG_INFINITY);
    assert_eq!(f(delta_ratio(d(-0.0), d(-1.0))), f64::NEG_INFINITY);
    assert_eq!(f(delta_ratio(d(-0.0), d(2.0))), f64::INFINITY);
    assert_eq!(f(delta_ratio(d(-100.0), d(-200.0))), -1.0);
    assert_eq!(f(delta_ratio(d(-100.0), d(100.0))), 2.0);
    assert_eq!(f(delta_ratio(d(-1.0), d(f64::NEG_INFINITY))), f64::NEG_INFINITY);
}

#[test]
fn improvements_from_zero_and_below_pass() {
    for (before, after, name) in [
        (0.0, -1.0, "fd_delta_bytes"),
        (-100.0, -200.0, "rss_growth_bytes"),
        (-1.0, f64::NEG_INFINITY, "cow_growth_bytes"),
        (-100.0, 100.0, "x_per_sec"),
        (0.0, 1.0, "x_rps"),
    ] {
        let base = report("s", &[(name, before)]);
        let current = report("s", &[(name, after)]);
        let diffs = compare(&base, &current, "p99", d(0.0)).outcome.unwrap();
        assert!(!any_failed(&diffs), "{name}");
        assert_eq!(status(&diffs[0]), "improved");
        let back = compare(&current, &base, "p99", d(0.2)).outcome.unwrap();
        assert!(any_failed(&back) || after.is_infinite(), "{name}");
    }
}

#[test]
fn different_machines_are_noted() {
    let base = report("s", &[("x_ms", 1.0)]);
    let mut other = report("s", &[("x_ms", 1.0)]);
    other.metadata.host.kernel = "Linux 6.1".to_string();
    other.metadata.host.cpu_count = 4;
    other.metadata.host.mem_total_bytes = 2;
    let r = compare(&base, &other, "p99", d(0.2));
    assert!(r.outcome.is_ok());
    assert_eq!(r.notes.len(), 3);
    assert!(matches!(&r.notes[0], Note::Kernel { current, .. } if current == "Linux 6.1"));
    assert!(matches!(r.notes[1], Note::CpuCount { baseline_cpus: 1, current_cpus: 4 }));
    assert!(matches!(r.notes[2], Note::Memory { baseline_bytes: 1, current_bytes: 2 }));
}

#[test]
fn an_increase_beyond_the_threshold_fails() {
    let base = report("s", &[("x_ms", 100.0)]);
    let worse = report("s", &[("x_ms", 121.0)]);
    let r = compare(&base, &worse, "p99", d(0.2));
    let diffs = r.outcome.unwrap();
    assert_eq!(diffs.len(), 1);
    assert_eq!(diffs[0].metric, "x_ms");
    assert_eq!(f(diffs[0].delta_ratio), (121.0 - 100.0) / 100.0);
    assert!(diffs[0].failed);
    assert!(any_failed(&diffs));
    assert_eq!(status(&diffs[0]), "FAIL");
    assert!(r.notes.is_empty());
    let same = compare(&base, &report("s", &[("x_ms", 120.0)]), "p99", d(0.2));
    assert!(!any_failed(&same.outcome.unwrap()));
}

#[test]
fn a_drop_in_throughput_fails_and_a_gain_does_not() {
    let base = report("s", &[("serve_rps", 1000.0)]);
    let drop = compare(&base, &report("s", &[("serve_rps", 700.0)]), "mean", d(0.2));
    let diffs = drop.outcome.unwrap();
    assert!(diffs[0].failed);
    assert!(diffs[0].higher_is_better);
    assert!(f(diffs[0].delta_ratio) < 0.0);
    assert!(f(diffs[0].regression_ratio) > 0.0);
    let gain = compare(&base, &report("s", &[("serve_rps", 5000.0)]), "mean", d(0.2));
    let diffs = gain.outcome.unwrap();
    assert!(!diffs[0].failed);
    assert_eq!(status(&diffs[0]), "improved");
}

#[test]
fn a_report_never_fails_against_itself() {
    let base = report("s", &[("a_ms", 0.0), ("b_rps", 10.0), ("c_bytes", 7.5)]);
    let again = report("s", &[("a_ms", 0.0), ("b_rps", 10.0), ("c_bytes", 7.5)]);
    for on in ["min", "p50", "p90", "p99", "max", "mean"] {
        let diffs = compare(&base, &again, on, d(0.0)).outcome.unwrap();
        assert!(!any_failed(&diffs));
        assert!(diffs.iter().all(|x| status(x) == "ok"));
    }
}

#[test]
fn metrics_are_joined_by_name_in_order() {
    let base = report("s", &[("z_ms", 1.0), ("gone_ms", 2.0), ("a_ms", 3.0)]);
    let current = report("s", &[("a_ms", 3.0), ("new_ms", 9.0), ("z_ms", 1.0)]);
    let r = compare(&base, &current, "p99", d(0.2));
    let diffs = r.outcome.unwrap();
    let names: Vec<&str> = diffs.iter().map(|x| x.metric.as_str()).collect();
    assert_eq!(names, vec!["a_ms", "gone_ms", "new_ms", "z_ms"]);
    assert!(diffs[1].current.is_nan() && f(diffs[1].baseline) == 2.0 && !diffs[1].failed);
    assert!(diffs[2].baseline.is_nan() && f(diffs[2].current) == 9.0 && !diffs[2].failed);
    assert_eq!(status(&diffs[1]), "—");
    assert_eq!(r.notes.len(), 2);
    assert!(matches!(&r.notes[0], Note::Vanished { metric } if metric == "gone_ms"));
    assert!(matches!(&r.notes[1], Note::New { metric } if metric == "new_ms"));
}

#[test]
fn other_scenarios_and_schemas_are_refused() {
    let base = report("s", &[("x_ms", 1.0)]);
    let other = report("t", &[("x_ms", 1.0)]);
    match compare(&base, &other, "p99", d(0.2)).outcome {
        Err(CompareError::Scenario { baseline, current }) => {
            assert_eq!((baseline.as_str(), current.as_str()), ("s", "t"));
        }
        _ => panic!("scenarios differ"),
    }
    let mut future = report("s", &[("x_ms", 1.0)]);
    future.schema_version = "2.0".to_string();
    match compare(&base, &future, "p99", d(0.2)).outcome {
        Err(CompareError::SchemaMajor { baseline, current }) => {
            assert_eq!((baseline.as_str(), current.as_str()), ("1.0", "2.0"));
        }
        _ => panic!("majors differ"),
    }
    match compare(&base, &report("s", &[("x_ms", 1.0)]), "p95", d(0.2)).outcome {
        Err(CompareError::UnknownAggregate { on }) => assert_eq!(on, "p95"),
        _ => panic!("no such aggregate"),
    }
}

#[test]
fn a_newer_minor_version_is_noted() {
    let base = report("s", &[("x_ms", 1.0)]);
    let mut newer = report("s", &[("x_ms", 1.0)]);
    newer.schema_version = "1.1".to_string();
    let r = compare(&base, &newer, "p99", d(0.2));
    assert!(r.outcome.is_ok());
    assert_eq!(r.notes.len(), 1);
    assert!(matches!(
        &r.notes[0],
        Note::NewerMinor { baseline, current } if baseline == "1.0" && current == "1.1"
    ));
}

#[test]
fn the_table_has_one_row_for_each_metric() {
    let base = report("s", &[("x_ms", 100.0), ("y_rps", 50.0), ("old_ms", 1.0)]);
    let current = report("s", &[("x_ms", 150.0), ("y_rps", 75.0)]);
    let diffs = compare(&base, &current, "p99", d(0.2)).outcome.unwrap();
    let lines = table_lines(&diffs, "p99", d(0.2));
    assert_eq!(lines.len(), 7);
    assert_eq!(
        lines[0],
        format!("{:<32}  {:>10}  {:>10}  {:>10}  result", "metric", "baseline", "current", "Δ%")
    );
    assert_eq!(lines[1], "-".repeat(76));
    assert_eq!(
        lines[2],
        format!("{:<32}  {:>10}  {:>10}  {:>10}  {}", "old_ms", "1.0", "       n/a", "       n/a", "—")
    );
    assert_eq!(
        lines[3],
        format!("{:<32}  {:>10}  {:>10}  {:>10}  {}", "x_ms", "100.0", "150.0", "+50.0% ↓", "FAIL")
    );
    assert_eq!(
        lines[4],
        format!("{:<32}  {:>10}  {:>10}  {:>10}  {}", "y_rps", "50.0", "75.0", "+50.0% ↑", "improved")
    );
    assert_eq!(lines[5], "");
    assert_eq!(
        lines[6],
        "Gating: --on=p99 --threshold=20% (regression if metric got worse by > threshold; ↑ marks higher-is-better metrics)"
    );
    assert_eq!(
        refusal("p99", d(0.2)),
        "regression: at least one metric exceeded the 20% threshold on p99"
    );
}
