//! Many commands in one box, one after another.
//!
//! The loop ends early when a command cannot be run. The sample then says how far it came.

use crate::bench::accuracy::{all_finite, exact_sizes, exact_sum, lemma_mean_is_exact};
use crate::bench::clock::Span;
use crate::bench::scenarios::common::law_peak_is_the_largest;
use crate::bench::scenarios::common::{
    add_some, alpine, alpine_options, count, in_ms, known_difference, known_growth, none,
    number_of, peak, peak_of, to_ms, whole, with_some, Command, CommandView, Home, Metrics,
};
use crate::bench::scenarios::script::{creates_at, one_box, Script, Step, StepView};
use crate::bench::stats::{mean, mean_of};
use crate::names::NameMap;
use crate::number::double::Double;
use crate::number::error::distance;
use crate::render::{decimal, decimal_text};
use vstd::arithmetic::power2::pow2;
use vstd::prelude::*;

verus! {

/// How many commands an iteration runs.
pub const EXECS: usize = 500;

/// The command.
pub open spec fn echo() -> CommandView {
    CommandView { program: "echo"@, args: seq!["hi"@] }
}

pub fn echo_command() -> (r: Command)
    ensures
        r@ == echo(),
{
    Command::new("echo").arg("hi")
}

/// `stability-exec-loop`.
pub struct ExecLoop {
    pub home: Home,
}

/// The mean and the largest of the times, if there are any.
pub open spec fn times_stats(times: Seq<Double>) -> (Option<Double>, Option<Double>) {
    if times.len() > 0 {
        (Some(mean_of(times)), Some(peak_of(times)))
    } else {
        (None, None)
    }
}

impl ExecLoop {
    pub fn new() -> (r: ExecLoop)
        ensures
            r.home.path is None,
    {
        ExecLoop { home: Home::new() }
    }

    pub fn name(&self) -> (r: &'static str)
        ensures
            r@ == "stability-exec-loop"@,
    {
        "stability-exec-loop"
    }

    /// The steps of an iteration.
    pub fn script(&self) -> (r: Script)
        ensures
            r@ == seq![
                StepView::Create(alpine()),
                StepView::Start,
                StepView::Repeat(500, echo(), true),
                StepView::Inspect,
                StepView::Stop,
            ],
            one_box(r@),
    {
        let r = Script::new().then_run(alpine_options()).then_do(
            Step::Repeat { times: EXECS, command: echo_command(), partial: true },
        ).then_do(Step::Inspect).then_do(Step::Stop);
        assert(creates_at(r@, 0));
        r
    }

    /// What is said when the command with the given number could not be run.
    pub fn failure_message(&self, number: usize, why: &str) -> (r: String)
        ensures
            r@ == "stability-exec-loop: exec #"@ + decimal(number as nat) + " failed: "@ + why@,
    {
        let mut r: String = "stability-exec-loop: exec #".to_owned();
        r.append(decimal_text(number as u64).as_str());
        r.append(" failed: ");
        r.append(why);
        r
    }

    /// The metrics of an iteration: how long each command that was run took, the open files of
    /// the host before and after, and the memory of the box at the end.
    pub fn metrics(
        &self,
        execs: &Vec<Span>,
        files_before: Option<u64>,
        files_after: Option<u64>,
        rss: Option<u64>,
    ) -> (r: Metrics)
        ensures
            r@ == with_some(
                with_some(
                    with_some(
                        with_some(
                            none().insert("exec_loop_count"@, Double::integer(500)).insert(
                                "exec_completed_count"@,
                                Double::integer(execs@.len() as int),
                            ),
                            "exec_mean_ms"@,
                            times_stats(in_ms(execs@)).0,
                        ),
                        "exec_max_ms"@,
                        times_stats(in_ms(execs@)).1,
                    ),
                    "exec_fd_delta_count"@,
                    known_growth(files_before, files_after),
                ),
                "exec_rss_end_bytes"@,
                whole(rss),
            ),
    {
        let times = to_ms(execs);
        let (average, longest): (Option<Double>, Option<Double>) = if times.len() > 0 {
            (Some(mean(&times)), Some(peak(&times)))
        } else {
            (None, None)
        };
        let m = NameMap::new().with("exec_loop_count", count(EXECS)).with(
            "exec_completed_count",
            count(times.len()),
        );
        let m = add_some(m, "exec_mean_ms", average);
        let m = add_some(m, "exec_max_ms", longest);
        let m = add_some(m, "exec_fd_delta_count", known_difference(files_before, files_after));
        add_some(m, "exec_rss_end_bytes", number_of(rss))
    }
}

/// The largest of the times is one of them and none is larger, and their mean, times their number,
/// is the exact sum but for one part in `2^52` for each. Without times there is neither.
pub proof fn law_times_are_summed_up(times: Seq<Double>)
    requires
        times.len() <= 0x10_0000_0000_0000,
        all_finite(times),
        exact_sizes(times) <= pow2(2096),
    ensures
        times.len() == 0 ==> times_stats(times).0 is None && times_stats(times).1 is None,
        times.len() > 0 ==> times_stats(times).0 is Some && times_stats(times).1 is Some,
        times.len() > 0 ==> 0x10_0000_0000_0000 * distance(
            times_stats(times).0->0.value() * times.len(),
            exact_sum(times),
        ) <= times.len() * exact_sizes(times) + 0x8_0000_0000_0000 * times.len(),
        times.len() > 0 ==> times.contains(times_stats(times).1->0),
        forall|i: int|
            0 <= i < times.len() ==> (#[trigger] times[i]).rank() <= times_stats(
                times,
            ).1->0.rank(),
{
    if times.len() > 0 {
        law_peak_is_the_largest(times);
        lemma_mean_is_exact(times);
    }
}

} // verus!
