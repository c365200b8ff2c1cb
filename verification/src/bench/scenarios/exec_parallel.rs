//! Many commands in one box at once.

use crate::bench::clock::Span;
use crate::bench::scenarios::common::{
    alpine, alpine_options, in_ms, none, to_ms, Command, CommandView, Home, Metrics,
};
use crate::bench::scenarios::script::{creates_at, one_box, Script, Step, StepView};
use crate::bench::stats::{in_order, percentile_index, rank_index, sort_numbers};
use crate::names::NameMap;
use crate::number::double::Double;
use vstd::prelude::*;

verus! {

/// How many commands an iteration runs.
pub const PARALLEL_EXECS: usize = 20;

/// The command.
pub open spec fn nap() -> CommandView {
    CommandView { program: "sleep"@, args: seq!["1"@] }
}

fn nap_command() -> (r: Command)
    ensures
        r@ == nap(),
{
    Command::new("sleep").arg("1")
}

/// `stability-exec-parallel`.
pub struct ExecParallel {
    pub home: Home,
}

/// The number at `i`, zero where there is none.
pub open spec fn at_or_zero(s: Seq<Double>, i: int) -> Double {
    if 0 <= i < s.len() {
        s[i]
    } else {
        Double::of(false, 0)
    }
}

fn get_or_zero(s: &Vec<Double>, i: usize) -> (r: Double)
    ensures
        r == at_or_zero(s@, i as int),
{
    if i < s.len() {
        s[i]
    } else {
        Double::from_bits(0)
    }
}

impl ExecParallel {
    pub fn new() -> (r: ExecParallel)
        ensures
            r.home.path is None,
    {
        ExecParallel { home: Home::new() }
    }

    pub fn name(&self) -> (r: &'static str)
        ensures
            r@ == "stability-exec-parallel"@,
    {
        "stability-exec-parallel"
    }

    /// The steps of an iteration.
    pub fn script(&self) -> (r: Script)
        ensures
            r@ == seq![
                StepView::Create(alpine()),
                StepView::Start,
                StepView::Together(20, nap()),
                StepView::Stop,
            ],
            one_box(r@),
    {
        let r = Script::new().then_run(alpine_options()).then_do(
            Step::Together { times: PARALLEL_EXECS, command: nap_command() },
        ).then_do(Step::Stop);
        assert(creates_at(r@, 0));
        r
    }

    /// The metrics of an iteration: how long all commands took together, and each of them. The
    /// median is the upper one of an even number of times.
    pub fn metrics(&self, batch: Span, execs: &Vec<Span>) -> (r: Metrics)
        ensures
            ({
                let times = in_order(in_ms(execs@));
                r@ == none().insert("exec_parallel_count"@, Double::integer(20)).insert(
                    "exec_parallel_batch_ms"@,
                    batch.milliseconds(),
                ).insert(
                    "exec_parallel_p50_ms"@,
                    at_or_zero(times, (execs@.len() / 2) as int),
                ).insert(
                    "exec_parallel_p99_ms"@,
                    at_or_zero(times, rank_index(99, execs@.len() as int)),
                ).insert("exec_parallel_max_ms"@, at_or_zero(times, execs@.len() - 1))
            }),
    {
        let times = sort_numbers(&to_ms(execs));
        let n: usize = times.len();
        let zero: Double = Double::from_bits(0);
        let p50: Double = get_or_zero(&times, n / 2);
        let p99: Double = if n == 0 {
            zero
        } else {
            times[percentile_index(99, n)]
        };
        let max: Double = if n == 0 {
            zero
        } else {
            times[n - 1]
        };
        NameMap::new().with("exec_parallel_count", Double::from_u64(20)).with(
            "exec_parallel_batch_ms",
            batch.as_ms(),
        ).with("exec_parallel_p50_ms", p50).with("exec_parallel_p99_ms", p99).with(
            "exec_parallel_max_ms",
            max,
        )
    }
}

} // verus!
