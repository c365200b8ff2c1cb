//! How many requests for its metrics a server answers in a second.

use crate::bench::clock::Span;
use crate::bench::scenarios::common::{
    add_some, event_rate, none, per_sec, with_some, Metrics,
};
use crate::names::NameMap;
use crate::number::double::Double;
use crate::text::joined;
use vstd::prelude::*;

verus! {

/// `throughput-rest-metrics-rps`.
pub struct RestMetricsRps;

impl RestMetricsRps {
    pub fn new() -> (r: RestMetricsRps)
        ensures
            r == RestMetricsRps,
    {
        RestMetricsRps
    }

    pub fn name(&self) -> (r: &'static str)
        ensures
            r@ == "throughput-rest-metrics-rps"@,
    {
        "throughput-rest-metrics-rps"
    }

    /// What is requested of the server at `base`.
    pub fn url(&self, base: &str) -> (r: String)
        ensures
            r@ == base@ + "/v1/metrics"@,
    {
        joined(base, "/v1/metrics")
    }

    /// The metrics of an iteration: so many requests succeeded and so many failed.
    pub fn metrics(&self, succeeded: u64, failed: u64, elapsed: Span) -> (r: Metrics)
        ensures
            r@ == with_some(
                none(),
                "rest_metrics_rps"@,
                event_rate(succeeded as int, elapsed.seconds()),
            ).insert("rest_metrics_success_count"@, Double::integer(succeeded as int)).insert(
                "rest_metrics_error_count"@,
                Double::integer(failed as int),
            ).insert("rest_metrics_concurrency"@, Double::integer(16)),
    {
        let m = add_some(NameMap::new(), "rest_metrics_rps", per_sec(succeeded, elapsed.as_secs()));
        m.with("rest_metrics_success_count", Double::from_u64(succeeded)).with(
            "rest_metrics_error_count",
            Double::from_u64(failed),
        ).with("rest_metrics_concurrency", Double::from_u64(16))
    }
}

} // verus!
