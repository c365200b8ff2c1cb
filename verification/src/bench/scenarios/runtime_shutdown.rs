//! Shutting a runtime down while boxes are running.

use crate::bench::clock::Span;
use crate::bench::scenarios::common::{alpine, alpine_options, none, BoxSpec, Home, Metrics};
use crate::bench::scenarios::plan::{Act, ActView, Plan};
use crate::names::NameMap;
use crate::number::double::Double;
use vstd::prelude::*;

verus! {

/// How many boxes are running.
pub const BOXES: usize = 3;

/// `latency-runtime-shutdown`.
pub struct RuntimeShutdown {
    pub home: Home,
}

impl RuntimeShutdown {
    pub fn new() -> (r: RuntimeShutdown)
        ensures
            r.home.path is None,
    {
        RuntimeShutdown { home: Home::new() }
    }

    pub fn name(&self) -> (r: &'static str)
        ensures
            r@ == "latency-runtime-shutdown"@,
    {
        "latency-runtime-shutdown"
    }

    /// Each of the boxes.
    pub fn options(&self) -> (r: BoxSpec)
        ensures
            r@ == alpine(),
    {
        alpine_options()
    }

    /// The acts of an iteration.
    pub fn plan(&self) -> (r: Plan)
        ensures
            r@ == seq![ActView::Populate(3, alpine(), true, false), ActView::Shutdown],
    {
        Plan::new().then_do(
            Act::Populate { count: BOXES, spec: self.options(), start: true, guard: false },
        ).then_do(Act::Shutdown)
    }

    /// The metrics of an iteration.
    pub fn metrics(&self, shutdown: Span) -> (r: Metrics)
        ensures
            r@ == none().insert("shutdown_n_boxes"@, Double::integer(3)).insert(
                "shutdown_ms"@,
                shutdown.milliseconds(),
            ),
    {
        NameMap::new().with("shutdown_n_boxes", Double::from_u64(3)).with(
            "shutdown_ms",
            shutdown.as_ms(),
        )
    }
}

} // verus!
