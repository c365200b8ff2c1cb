//! Many commands in one box, one after another, over the REST interface.

use crate::bench::clock::Span;
use crate::bench::scenarios::common::{
    alpine, alpine_options, in_ms, none, peak, peak_of, to_ms, BoxSpec, Command, Metrics,
};
use crate::bench::scenarios::exec_loop::{echo, echo_command};
use crate::bench::scenarios::plan::{Act, ActView, Plan};
use crate::bench::stats::{mean, mean_of, nearest_rank, percentile_of};
use crate::names::NameMap;
use crate::number::double::Double;
use vstd::prelude::*;

verus! {

/// How many commands an iteration runs.
pub const REMOTE_EXECS: usize = 100;

/// `latency-ws-exec`.
pub struct WsExec;

impl WsExec {
    pub fn new() -> (r: WsExec)
        ensures
            r == WsExec,
    {
        WsExec
    }

    pub fn name(&self) -> (r: &'static str)
        ensures
            r@ == "latency-ws-exec"@,
    {
        "latency-ws-exec"
    }

    /// The box.
    pub fn options(&self) -> (r: BoxSpec)
        ensures
            r@ == alpine(),
    {
        alpine_options()
    }

    /// The command.
    pub fn command(&self) -> (r: Command)
        ensures
            r@ == echo(),
    {
        echo_command()
    }

    /// The acts of an iteration.
    pub fn plan(&self) -> (r: Plan)
        ensures
            r@ == seq![
                ActView::Create(alpine()),
                ActView::Start,
                ActView::Run(100, echo()),
                ActView::Release,
            ],
    {
        Plan::new().then_do(Act::Create(self.options())).then_do(Act::Start).then_do(
            Act::Run { times: REMOTE_EXECS, command: self.command() },
        ).then_do(Act::Release)
    }

    /// The metrics of an iteration, given how long each command took.
    pub fn metrics(&self, execs: &Vec<Span>) -> (r: Metrics)
        ensures
            r@ == none().insert("ws_exec_count"@, Double::integer(100)).insert(
                "ws_exec_mean_ms"@,
                mean_of(in_ms(execs@)),
            ).insert("ws_exec_p50_ms"@, percentile_of(in_ms(execs@), 50)).insert(
                "ws_exec_p99_ms"@,
                percentile_of(in_ms(execs@), 99),
            ).insert("ws_exec_max_ms"@, peak_of(in_ms(execs@))),
    {
        let times = to_ms(execs);
        NameMap::new().with("ws_exec_count", Double::from_u64(100)).with(
            "ws_exec_mean_ms",
            mean(&times),
        ).with("ws_exec_p50_ms", nearest_rank(&times, 50)).with(
            "ws_exec_p99_ms",
            nearest_rank(&times, 99),
        ).with("ws_exec_max_ms", peak(&times))
    }
}

} // verus!
