//! Asking a runtime for its metrics while boxes are running.

use crate::bench::clock::Span;
use crate::bench::scenarios::common::{
    alpine, in_us, none, peak, peak_of, source_options, to_us, BoxSpec, BoxSpecView, Home, Metrics,
};
use crate::bench::scenarios::plan::{populated_if, stages_nothing, Act, ActView, Plan};
use crate::bench::stats::{mean, mean_of, nearest_rank, percentile_of};
use crate::names::NameMap;
use crate::number::double::Double;
use vstd::prelude::*;

verus! {

/// How many boxes are running.
pub const RUNNING_BOXES: usize = 10;

/// How many times an iteration asks.
pub const POLLS: usize = 500;

/// `resource-runtime-metrics-poll`.
pub struct RuntimeMetricsPoll {
    pub home: Home,
    /// How many boxes were started. They keep running until the end.
    pub boxes: usize,
}

impl RuntimeMetricsPoll {
    pub fn new() -> (r: RuntimeMetricsPoll)
        ensures
            r.home.path is None,
            r.boxes == 0,
    {
        RuntimeMetricsPoll { home: Home::new(), boxes: 0 }
    }

    pub fn name(&self) -> (r: &'static str)
        ensures
            r@ == "resource-runtime-metrics-poll"@,
    {
        "resource-runtime-metrics-poll"
    }

    /// Each of the boxes.
    pub fn options(&self) -> (r: BoxSpec)
        ensures
            r@ == (BoxSpecView { auto_remove: false, ..alpine() }),
    {
        source_options()
    }

    /// How many boxes are still to be started: all of them before the first iteration, none
    /// after it.
    pub fn missing(&self) -> (r: usize)
        ensures
            r == if self.boxes == 0 {
                10
            } else {
                0int
            },
    {
        if self.boxes == 0 {
            RUNNING_BOXES
        } else {
            0
        }
    }

    /// Notes that a box was started.
    pub fn started(&mut self)
        requires
            old(self).boxes < usize::MAX,
        ensures
            final(self).boxes == old(self).boxes + 1,
            final(self).home == old(self).home,
    {
        self.boxes = self.boxes + 1;
    }

    /// The acts of an iteration. The boxes are started once.
    pub fn plan(&self) -> (r: Plan)
        ensures
            r@ == populated_if(
                if self.boxes == 0 {
                    10
                } else {
                    0
                },
                BoxSpecView { auto_remove: false, ..alpine() },
                true,
            ) + seq![ActView::Poll(500)],
            self.boxes > 0 ==> stages_nothing(r@),
    {
        Plan::new().then_populate_if(self.missing(), self.options(), true).then_do(
            Act::Poll { times: POLLS },
        )
    }

    /// The metrics of an iteration, given how long each answer took.
    pub fn metrics(&self, polls: &Vec<Span>) -> (r: Metrics)
        ensures
            r@ == none().insert("rt_metrics_population"@, Double::integer(10)).insert(
                "rt_metrics_polls"@,
                Double::integer(500),
            ).insert("rt_metrics_mean_us"@, mean_of(in_us(polls@))).insert(
                "rt_metrics_p50_us"@,
                percentile_of(in_us(polls@), 50),
            ).insert("rt_metrics_p99_us"@, percentile_of(in_us(polls@), 99)).insert(
                "rt_metrics_max_us"@,
                peak_of(in_us(polls@)),
            ),
    {
        let times = to_us(polls);
        NameMap::new().with("rt_metrics_population", Double::from_u64(10)).with(
            "rt_metrics_polls",
            Double::from_u64(500),
        ).with("rt_metrics_mean_us", mean(&times)).with(
            "rt_metrics_p50_us",
            nearest_rank(&times, 50),
        ).with("rt_metrics_p99_us", nearest_rank(&times, 99)).with(
            "rt_metrics_max_us",
            peak(&times),
        )
    }
}

} // verus!
