//! What a box with several busy processors costs.

use crate::bench::scenarios::common::{
    add_some, alpine, alpine_options, check_exit, first, get_first, get_second, install,
    install_command, integer_text, largest, max_number, mean_and_max, none, second, single_stats,
    whole, with_some, BoxSpec, BoxSpecView, Command, CommandView, Home, Metrics,
};
use crate::bench::scenarios::script::{
    creates_at, one_box, prepared_if, Script, Step, StepView,
};
use crate::names::NameMap;
use crate::number::double::Double;
use crate::number::single::Single;
use vstd::prelude::*;

verus! {

/// How many virtual processors the box has.
pub const VCPU_COUNT: u8 = 4;

/// The workload that keeps all processors busy.
pub open spec fn load() -> CommandView {
    CommandView { program: "stress-ng"@, args: seq!["--cpu"@, "4"@, "--timeout"@, "10s"@] }
}

fn load_command() -> (r: Command)
    ensures
        r@ == load(),
{
    Command::new("stress-ng").arg("--cpu").arg("4").arg("--timeout").arg("10s")
}

/// `resource-multi-vcpu-load`.
pub struct MultiVcpu {
    pub home: Home,
    pub stress_installed: bool,
}

impl MultiVcpu {
    pub fn new() -> (r: MultiVcpu)
        ensures
            r.home.path is None,
            !r.stress_installed,
    {
        MultiVcpu { home: Home::new(), stress_installed: false }
    }

    pub fn name(&self) -> (r: &'static str)
        ensures
            r@ == "resource-multi-vcpu-load"@,
    {
        "resource-multi-vcpu-load"
    }

    fn options(&self) -> (r: BoxSpec)
        ensures
            r@ == (BoxSpecView { cpus: Some(4), ..alpine() }),
    {
        let mut spec = alpine_options();
        spec.cpus = Some(VCPU_COUNT);
        spec
    }

    /// The steps of an iteration.
    pub fn script(&self) -> (r: Script)
        ensures
            r@ == seq![
                StepView::Create(BoxSpecView { cpus: Some(4), ..alpine() }),
                StepView::Start,
            ] + prepared_if(!self.stress_installed, install("stress-ng"@)) + seq![
                StepView::Spawn(load()),
                StepView::Settle(500),
                StepView::Sample(9, 2000),
                StepView::Await(5),
                StepView::Stop,
            ],
            one_box(r@),
    {
        let r = Script::new().then_run(self.options()).then_prepare_if(
            !self.stress_installed,
            install_command("stress-ng"),
        ).then_do(Step::Spawn(load_command())).then_do(Step::Settle { ms: 500 }).then_do(
            Step::Sample { secs: 9, interval_ms: 2000 },
        ).then_do(Step::Await { secs: 5 }).then_do(Step::Stop);
        assert(creates_at(r@, 0));
        r
    }

    /// Refuses a box in which `stress-ng` could not be installed, and otherwise notes that it is.
    pub fn installed(&mut self, exit_code: i32) -> (r: Result<(), String>)
        ensures
            final(self).home == old(self).home,
            match r {
                Ok(()) => exit_code == 0 && final(self).stress_installed,
                Err(text) => {
                    &&& exit_code != 0
                    &&& final(self).stress_installed == old(self).stress_installed
                    &&& text@ == "apk add stress-ng failed exit "@ + integer_text(exit_code as int)
                        + ""@
                },
            },
    {
        match check_exit(exit_code, "apk add stress-ng failed exit ", "") {
            Ok(()) => {
                self.stress_installed = true;
                Ok(())
            },
            Err(text) => Err(text),
        }
    }

    /// The metrics of an iteration, given the samples of the memory and of the processors.
    pub fn metrics(&self, rss: &Vec<u64>, cpu: &Vec<Single>) -> (r: Metrics)
        ensures
            r@ == with_some(
                with_some(
                    with_some(
                        none().insert("multi_vcpu_count"@, Double::integer(4)),
                        "multi_vcpu_cpu_pct_mean"@,
                        first(single_stats(cpu@)),
                    ),
                    "multi_vcpu_cpu_pct_max"@,
                    second(single_stats(cpu@)),
                ),
                "multi_vcpu_rss_max_bytes"@,
                whole(largest(rss@)),
            ),
    {
        let stats = mean_and_max(cpu);
        let m = NameMap::new().with("multi_vcpu_count", Double::from_u64(4));
        let m = add_some(m, "multi_vcpu_cpu_pct_mean", get_first(stats));
        let m = add_some(m, "multi_vcpu_cpu_pct_max", get_second(stats));
        add_some(m, "multi_vcpu_rss_max_bytes", max_number(rss))
    }
}

} // verus!
