//! Stopping and starting one box over and over.

use crate::bench::clock::Span;
use crate::bench::scenarios::common::{
    add_some, alpine, difference, growth, in_ms, known_difference, known_growth, none, peak,
    peak_of, source_options, to_ms, with_some, BoxSpec, BoxSpecView, Home, Metrics,
};
use crate::bench::scenarios::plan::{Act, ActView, Plan};
use crate::bench::stats::{mean, mean_of};
use crate::names::NameMap;
use crate::number::double::Double;
use vstd::prelude::*;

verus! {

/// How many times an iteration stops and starts the box.
pub const RESTARTS: usize = 20;

/// `stability-restart-loop`.
pub struct RestartLoop {
    pub home: Home,
}

/// The size, or zero where it is not known.
pub open spec fn size_or_zero(n: Option<u64>) -> int {
    match n {
        Some(x) => x as int,
        None => 0,
    }
}

pub fn known_size(n: Option<u64>) -> (r: u64)
    ensures
        r == size_or_zero(n),
{
    match n {
        Some(x) => x,
        None => 0,
    }
}

impl RestartLoop {
    pub fn new() -> (r: RestartLoop)
        ensures
            r.home.path is None,
    {
        RestartLoop { home: Home::new() }
    }

    pub fn name(&self) -> (r: &'static str)
        ensures
            r@ == "stability-restart-loop"@,
    {
        "stability-restart-loop"
    }

    /// The box, which must survive its stop.
    pub fn options(&self) -> (r: BoxSpec)
        ensures
            r@ == (BoxSpecView { auto_remove: false, ..alpine() }),
    {
        source_options()
    }

    /// The acts of an iteration.
    pub fn plan(&self) -> (r: Plan)
        ensures
            r@ == seq![
                ActView::Create(BoxSpecView { auto_remove: false, ..alpine() }),
                ActView::Guard,
                ActView::Start,
                ActView::ReadDisk,
                ActView::CountFiles,
                ActView::Restart(20),
                ActView::ReadDisk,
                ActView::CountFiles,
                ActView::Stop,
                ActView::Remove,
            ],
    {
        Plan::new().then_do(Act::Create(self.options())).then_do(Act::Guard).then_do(
            Act::Start,
        ).then_do(Act::ReadDisk).then_do(Act::CountFiles).then_do(
            Act::Restart { times: RESTARTS },
        ).then_do(Act::ReadDisk).then_do(Act::CountFiles).then_do(Act::Stop).then_do(Act::Remove)
    }

    /// The metrics of an iteration: how long each restart took, and the disk of the box and the
    /// open files of the host before and after.
    pub fn metrics(
        &self,
        cycles: &Vec<Span>,
        cow_before: Option<u64>,
        cow_after: Option<u64>,
        files_before: Option<u64>,
        files_after: Option<u64>,
    ) -> (r: Metrics)
        ensures
            r@ == with_some(
                none().insert("restart_cycles_count"@, Double::integer(20)).insert(
                    "restart_cycle_mean_ms"@,
                    mean_of(in_ms(cycles@)),
                ).insert("restart_cycle_max_ms"@, peak_of(in_ms(cycles@))).insert(
                    "restart_cow_growth_bytes"@,
                    growth(size_or_zero(cow_before), size_or_zero(cow_after)),
                ),
                "restart_fd_delta_count"@,
                known_growth(files_before, files_after),
            ),
    {
        let times = to_ms(cycles);
        let m = NameMap::new().with("restart_cycles_count", Double::from_u64(20)).with(
            "restart_cycle_mean_ms",
            mean(&times),
        ).with("restart_cycle_max_ms", peak(&times)).with(
            "restart_cow_growth_bytes",
            difference(known_size(cow_before), known_size(cow_after)),
        );
        add_some(m, "restart_fd_delta_count", known_difference(files_before, files_after))
    }
}

} // verus!
