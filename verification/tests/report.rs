//! Reports and their aggregates.

use boxlite_cli::bench::report::{BenchReport, SCHEMA_VERSION};
use boxlite_cli::bench::stats::{
    aggregate, deviation, mean, nearest_rank, percentile_index, sort_numbers, sum_numbers,
};
use boxlite_cli::number::double::Double;

fn d(x: f64) -> Double {
    Double::from_bits(x.to_bits())
}

fn f(x: Double) -> f64 {
    f64::from_bits(x.to_bits())
}

fn all(v: &[f64]) -> Vec<Double> {
    v.iter().map(|&x| d(x)).collect()
}

#[test]
fn schema_version_is_pinned() {
    assert_eq!(SCHEMA_VERSION, "1.0");
}

#[test]
fn unit_hint_resolves_known_suffixes() {
    assert_eq!(BenchReport::unit_hint("total_create_duration_ms"), "ms");
    assert_eq!(BenchReport::unit_hint("rss_bytes"), "bytes");
    assert_eq!(BenchReport::unit_hint("cpu_idle_pct"), "pct");
    assert_eq!(BenchReport::unit_hint("commands_executed_count"), "count");
    assert_eq!(BenchReport::unit_hint("soak_secs"), "secs");
    assert_eq!(BenchReport::unit_hint("pull_mb_per_sec"), "per_sec");
    assert_eq!(BenchReport::unit_hint("serve_rps"), "rps");
    assert_eq!(BenchReport::unit_hint("nonsense"), "?");
}

#[test]
fn unit_hint_needs_the_whole_suffix() {
    assert_eq!(BenchReport::unit_hint("_ms"), "ms");
    assert_eq!(BenchReport::unit_hint("ms"), "?");
    assert_eq!(BenchReport::unit_hint(""), "?");
    assert_eq!(BenchReport::unit_hint("x_MS"), "?");
}

#[test]
fn higher_is_better_recognizes_throughput_suffixes() {
    assert!(BenchReport::higher_is_better("serve_rps"));
    assert!(BenchReport::higher_is_better("pull_mb_per_sec"));
    assert!(BenchReport::higher_is_better("disk_write_mb_per_sec"));
    assert!(BenchReport::higher_is_better("net_tcp_mb_per_sec"));
    assert!(!BenchReport::higher_is_better("total_create_ms"));
    assert!(!BenchReport::higher_is_better("rss_bytes"));
    assert!(!BenchReport::higher_is_better("cpu_idle_pct"));
    assert!(!BenchReport::higher_is_better("commands_executed_count"));
    assert!(!BenchReport::higher_is_better("nonsense"));
}

#[test]
fn direction_follows_the_unit() {
    for name in ["serve_rps", "x_per_sec", "total_ms", "soak_secs", "rss_bytes", "other"] {
        let unit = BenchReport::unit_hint(name);
        assert_eq!(BenchReport::higher_is_better(name), unit == "rps" || unit == "per_sec");
    }
}

/// The 99th percentile of a hundred samples is the 99th observed value, counted from one.
#[test]
fn percentile_uses_nearest_rank() {
    let samples: Vec<Double> = (1..=100).map(|i| d(i as f64)).collect();
    let agg = aggregate("v_ms", &samples).expect("non-empty");
    assert_eq!(f(agg.p50), 50.0, "p50 of 1..=100 == 50");
    assert_eq!(f(agg.p90), 90.0, "p90 of 1..=100 == 90");
    assert_eq!(f(agg.p99), 99.0, "p99 of 1..=100 == 99");
    assert_eq!(f(agg.min), 1.0);
    assert_eq!(f(agg.max), 100.0);
    assert_eq!(f(agg.mean), 50.5);
    assert_eq!(agg.n, 100);
}

#[test]
fn aggregate_handles_single_sample() {
    let agg = aggregate("rss_bytes", &all(&[12345.0])).expect("non-empty");
    assert_eq!(f(agg.min), 12345.0);
    assert_eq!(f(agg.p50), 12345.0);
    assert_eq!(f(agg.p99), 12345.0);
    assert_eq!(f(agg.max), 12345.0);
    assert_eq!(f(agg.mean), 12345.0);
    assert_eq!(f(agg.stdev), 0.0);
    assert_eq!(agg.unit, "bytes");
    assert_eq!(agg.n, 1);
}

#[test]
fn aggregate_returns_none_on_empty() {
    assert!(aggregate("x_ms", &[]).is_none());
}

#[test]
fn aggregate_returns_none_on_nothing_but_nan() {
    assert!(aggregate("x_ms", &all(&[f64::NAN, f64::NAN])).is_none());
}

#[test]
fn aggregate_drops_nan_samples() {
    let samples = all(&[1.0, f64::NAN, 2.0, 3.0]);
    let agg = aggregate("v_ms", &samples).expect("non-nan remaining");
    assert_eq!(agg.n, 3);
    assert_eq!(f(agg.min), 1.0);
    assert_eq!(f(agg.max), 3.0);
}

/// The squared deviations of these samples from their mean 5 sum to 32. The deviation of the
/// sample is the square root of 32/7; that of a population would be 2.
#[test]
fn stdev_uses_bessel_correction() {
    let samples = all(&[2.0, 4.0, 4.0, 4.0, 5.0, 5.0, 7.0, 9.0]);
    let agg = aggregate("v_ms", &samples).expect("non-empty");
    let expected = (32.0_f64 / 7.0).sqrt();
    assert!(
        (f(agg.stdev) - expected).abs() < 1e-9,
        "expected sample stdev={} (sqrt(32/7)), got {}",
        expected,
        f(agg.stdev),
    );
    assert_eq!(f(agg.stdev), expected);
}

#[test]
fn aggregate_names_unit_and_direction() {
    let agg = aggregate("serve_rps", &all(&[3.0, 1.0, 2.0])).expect("non-empty");
    assert_eq!(agg.name, "serve_rps");
    assert_eq!(agg.unit, "rps");
    assert!(agg.higher_is_better);
    assert_eq!(f(agg.p50), 2.0);
    assert_eq!(f(agg.p90), 3.0);
    assert_eq!(f(agg.mean), 2.0);
    assert_eq!(f(agg.stdev), 1.0);
}

#[test]
fn percentiles_are_observed_and_ascend() {
    let samples = [5.5, -1.0, 3.25, 8.0, 0.0, 2.0, 7.75];
    let agg = aggregate("x_ms", &all(&samples)).expect("non-empty");
    for p in [agg.min, agg.p50, agg.p90, agg.p99, agg.max] {
        assert!(samples.contains(&f(p)));
    }
    assert!(f(agg.min) <= f(agg.p50));
    assert!(f(agg.p50) <= f(agg.p90));
    assert!(f(agg.p90) <= f(agg.p99));
    assert!(f(agg.p99) <= f(agg.max));
}

#[test]
fn aggregates_depend_on_the_numbers_alone() {
    let fields = |samples: &[f64]| {
        let a = aggregate("v_ms", &all(samples)).expect("non-empty");
        let values = [a.min, a.p50, a.p90, a.p99, a.max, a.mean, a.stdev];
        (values.map(|x| x.to_bits()), a.n, a.name, a.unit, a.higher_is_better)
    };
    let expected = fields(&[0.1, 0.2, 0.3, 1e16, -7.5, 0.0]);
    assert_eq!(fields(&[1e16, 0.3, -7.5, 0.1, 0.0, 0.2]), expected);
    assert_eq!(fields(&[0.2, f64::NAN, 0.0, 1e16, 0.1, 0.3, f64::NAN, -7.5]), expected);
}

#[test]
fn the_sign_of_a_zero_does_not_count() {
    let a = aggregate("v_ms", &all(&[0.0, -0.0])).expect("non-empty");
    let b = aggregate("v_ms", &all(&[-0.0, 0.0])).expect("non-empty");
    assert_ne!(a.min.to_bits(), b.min.to_bits());
    assert_eq!(f(a.min), f(b.min));
    assert_eq!(f(a.mean), f(b.mean));
    assert_eq!(f(a.stdev), f(b.stdev));
}

#[test]
fn ranks_stay_within_the_samples() {
    assert_eq!(percentile_index(50, 1), 0);
    assert_eq!(percentile_index(50, 2), 0);
    assert_eq!(percentile_index(50, 3), 1);
    assert_eq!(percentile_index(99, 100), 98);
    assert_eq!(percentile_index(99, 101), 99);
    assert_eq!(percentile_index(0, 10), 0);
    assert_eq!(percentile_index(100, 10), 9);
}

#[test]
fn helpers_compute_on_the_samples() {
    let v = all(&[3.0, 1.0, 2.0, 2.0]);
    let sorted: Vec<f64> = sort_numbers(&v).iter().map(|&x| f(x)).collect();
    assert_eq!(sorted, vec![1.0, 2.0, 2.0, 3.0]);
    assert_eq!(f(sum_numbers(&v)), 8.0);
    assert_eq!(f(mean(&v)), 2.0);
    assert_eq!(f(deviation(&v)), (2.0f64 / 3.0).sqrt());
    assert_eq!(f(nearest_rank(&v, 90)), 3.0);
    assert_eq!(f(nearest_rank(&Vec::new(), 90)), 0.0);
}
