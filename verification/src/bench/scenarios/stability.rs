//! Creating, starting and stopping boxes over and over.

use crate::bench::clock::Span;
use crate::bench::scenarios::common::{
    add_some, alpine, alpine_options, in_ms, known_difference, known_growth, none, peak, peak_of,
    to_ms, with_some, BoxSpec, Home, Metrics,
};
use crate::bench::scenarios::plan::{Act, ActView, Plan};
use crate::bench::stats::{mean, mean_of};
use crate::names::NameMap;
use crate::number::double::Double;
use vstd::prelude::*;

verus! {

/// How many boxes an iteration creates, one after another.
pub const CHURN_CYCLES: usize = 50;

/// `stability-churn`.
pub struct Churn {
    pub home: Home,
}

impl Churn {
    pub fn new() -> (r: Churn)
        ensures
            r.home.path is None,
    {
        Churn { home: Home::new() }
    }

    pub fn name(&self) -> (r: &'static str)
        ensures
            r@ == "stability-churn"@,
    {
        "stability-churn"
    }

    /// Each of the boxes.
    pub fn options(&self) -> (r: BoxSpec)
        ensures
            r@ == alpine(),
    {
        alpine_options()
    }

    /// The acts of an iteration.
    pub fn plan(&self) -> (r: Plan)
        ensures
            r@ == seq![ActView::CountFiles, ActView::Churn(50, alpine()), ActView::CountFiles],
    {
        Plan::new().then_do(Act::CountFiles).then_do(
            Act::Churn { times: CHURN_CYCLES, spec: self.options() },
        ).then_do(Act::CountFiles)
    }

    /// The metrics of an iteration: how long each cycle took, and the open files of the host
    /// before and after.
    pub fn metrics(
        &self,
        cycles: &Vec<Span>,
        files_before: Option<u64>,
        files_after: Option<u64>,
    ) -> (r: Metrics)
        ensures
            r@ == with_some(
                none().insert("churn_cycles_count"@, Double::integer(50)).insert(
                    "cycle_mean_ms"@,
                    mean_of(in_ms(cycles@)),
                ).insert("cycle_max_ms"@, peak_of(in_ms(cycles@))),
                "fd_delta_count"@,
                known_growth(files_before, files_after),
            ),
    {
        let times = to_ms(cycles);
        let m = NameMap::new().with("churn_cycles_count", Double::from_u64(50)).with(
            "cycle_mean_ms",
            mean(&times),
        ).with("cycle_max_ms", peak(&times));
        add_some(m, "fd_delta_count", known_difference(files_before, files_after))
    }
}

} // verus!
