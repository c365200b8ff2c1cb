//! What a busy box costs.
//!
//! `resource-cpu-load` keeps one virtual processor busy. `resource-mem-pressure` uses most of the
//! memory that the box is given, and reports how the workload ended: killed for want of memory,
//! it exits with 137.

use crate::bench::scenarios::common::{
    add_some, alpine, alpine_options, check_exit, count, first, get_first, get_second, install,
    install_command, integer_text, largest, max_number, mean_and_max, none, second, single_stats,
    whole, with_some, BoxSpec, BoxSpecView, Command, CommandView, Home, Metrics,
};
use crate::bench::scenarios::script::{
    creates_at, one_box, prepared_if, Script, Step, StepView,
};
use crate::names::NameMap;
use crate::number::double::Double;
use crate::number::single::Single;
use vstd::prelude::*;

verus! {

/// How much memory the box under pressure is given, in mebibytes.
pub const MEM_LIMIT_MIB: u32 = 256;

/// How much of it the workload uses, in mebibytes.
pub const MEM_ALLOC_MIB: u32 = 150;

/// The workload that keeps one processor busy.
pub open spec fn cpu_load() -> CommandView {
    CommandView { program: "stress-ng"@, args: seq!["--cpu"@, "1"@, "--timeout"@, "10s"@] }
}

fn cpu_load_command() -> (r: Command)
    ensures
        r@ == cpu_load(),
{
    Command::new("stress-ng").arg("--cpu").arg("1").arg("--timeout").arg("10s")
}

/// The workload that uses memory.
pub open spec fn mem_load() -> CommandView {
    CommandView {
        program: "stress-ng"@,
        args: seq!["--vm"@, "1"@, "--vm-bytes"@, "150m"@, "--timeout"@, "8s"@],
    }
}

fn mem_load_command() -> (r: Command)
    ensures
        r@ == mem_load(),
{
    Command::new("stress-ng").arg("--vm").arg("1").arg("--vm-bytes").arg("150m").arg(
        "--timeout",
    ).arg("8s")
}

/// Refuses a box in which `stress-ng` could not be installed.
fn check_stress_ng(exit_code: i32) -> (r: Result<(), String>)
    ensures
        match r {
            Ok(()) => exit_code == 0,
            Err(text) => exit_code != 0 && text@ == "apk add stress-ng failed (exit "@
                + integer_text(exit_code as int) + ")"@,
        },
{
    check_exit(exit_code, "apk add stress-ng failed (exit ", ")")
}

/// `resource-cpu-load`.
pub struct CpuLoad {
    pub home: Home,
    pub stress_installed: bool,
}

impl CpuLoad {
    pub fn new() -> (r: CpuLoad)
        ensures
            r.home.path is None,
            !r.stress_installed,
    {
        CpuLoad { home: Home::new(), stress_installed: false }
    }

    pub fn name(&self) -> (r: &'static str)
        ensures
            r@ == "resource-cpu-load"@,
    {
        "resource-cpu-load"
    }

    /// The steps of an iteration.
    pub fn script(&self) -> (r: Script)
        ensures
            r@ == seq![StepView::Create(alpine()), StepView::Start] + prepared_if(
                !self.stress_installed,
                install("stress-ng"@),
            ) + seq![
                StepView::Spawn(cpu_load()),
                StepView::Settle(500),
                StepView::Sample(9, 2000),
                StepView::Await(5),
                StepView::Stop,
            ],
            one_box(r@),
    {
        let r = Script::new().then_run(alpine_options()).then_prepare_if(
            !self.stress_installed,
            install_command("stress-ng"),
        ).then_do(Step::Spawn(cpu_load_command())).then_do(Step::Settle { ms: 500 }).then_do(
            Step::Sample { secs: 9, interval_ms: 2000 },
        ).then_do(Step::Await { secs: 5 }).then_do(Step::Stop);
        assert(creates_at(r@, 0));
        r
    }

    /// Refuses a box in which `stress-ng` could not be installed, and otherwise notes that it is.
    pub fn installed(&mut self, exit_code: i32) -> (r: Result<(), String>)
        ensures
            final(self).home == old(self).home,
            match r {
                Ok(()) => exit_code == 0 && final(self).stress_installed,
                Err(text) => {
                    &&& exit_code != 0
                    &&& final(self).stress_installed == old(self).stress_installed
                    &&& text@ == "apk add stress-ng failed (exit "@ + integer_text(
                        exit_code as int,
                    ) + ")"@
                },
            },
    {
        match check_stress_ng(exit_code) {
            Ok(()) => {
                self.stress_installed = true;
                Ok(())
            },
            Err(text) => Err(text),
        }
    }

    /// The metrics of an iteration, given the samples of the memory and of the processor.
    pub fn metrics(&self, rss: &Vec<u64>, cpu: &Vec<Single>) -> (r: Metrics)
        ensures
            r@ == with_some(
                with_some(
                    with_some(none(), "rss_load_max_bytes"@, whole(largest(rss@))),
                    "cpu_load_pct_max"@,
                    second(single_stats(cpu@)),
                ),
                "cpu_load_pct_mean"@,
                first(single_stats(cpu@)),
            ).insert("cpu_load_samples_count"@, Double::integer(rss@.len() as int)),
    {
        let stats = mean_and_max(cpu);
        let m = add_some(NameMap::new(), "rss_load_max_bytes", max_number(rss));
        let m = add_some(m, "cpu_load_pct_max", get_second(stats));
        let m = add_some(m, "cpu_load_pct_mean", get_first(stats));
        m.with("cpu_load_samples_count", count(rss.len()))
    }
}

/// How the workload ended.
#[derive(Clone, Copy, Debug, PartialEq, Eq, Structural)]
pub enum Ending {
    Exited { code: i32 },
    /// Waiting for it failed.
    WaitFailed,
    /// It did not end in time.
    TimedOut,
}

impl Ending {
    /// The exit code, or a negative number that no program exits with.
    pub open spec fn code(self) -> int {
        match self {
            Ending::Exited { code } => code as int,
            Ending::WaitFailed => -1,
            Ending::TimedOut => -2,
        }
    }

    fn number(self) -> (r: Double)
        ensures
            r == Double::integer(self.code()),
    {
        match self {
            Ending::Exited { code } => Double::from_i64(code as i64),
            Ending::WaitFailed => Double::from_i64(-1),
            Ending::TimedOut => Double::from_i64(-2),
        }
    }
}

/// `resource-mem-pressure`.
pub struct MemPressure {
    pub home: Home,
    pub stress_installed: bool,
}

impl MemPressure {
    pub fn new() -> (r: MemPressure)
        ensures
            r.home.path is None,
            !r.stress_installed,
    {
        MemPressure { home: Home::new(), stress_installed: false }
    }

    pub fn name(&self) -> (r: &'static str)
        ensures
            r@ == "resource-mem-pressure"@,
    {
        "resource-mem-pressure"
    }

    fn options(&self) -> (r: BoxSpec)
        ensures
            r@ == (BoxSpecView { memory_mib: Some(256), ..alpine() }),
    {
        let mut spec = alpine_options();
        spec.memory_mib = Some(MEM_LIMIT_MIB);
        spec
    }

    /// The steps of an iteration.
    pub fn script(&self) -> (r: Script)
        ensures
            r@ == seq![
                StepView::Create(BoxSpecView { memory_mib: Some(256), ..alpine() }),
                StepView::Start,
            ] + prepared_if(!self.stress_installed, install("stress-ng"@)) + seq![
                StepView::Spawn(mem_load()),
                StepView::Settle(500),
                StepView::Sample(7, 2000),
                StepView::Await(10),
                StepView::Stop,
            ],
            one_box(r@),
    {
        let r = Script::new().then_run(self.options()).then_prepare_if(
            !self.stress_installed,
            install_command("stress-ng"),
        ).then_do(Step::Spawn(mem_load_command())).then_do(Step::Settle { ms: 500 }).then_do(
            Step::Sample { secs: 7, interval_ms: 2000 },
        ).then_do(Step::Await { secs: 10 }).then_do(Step::Stop);
        assert(creates_at(r@, 0));
        r
    }

    /// Refuses a box in which `stress-ng` could not be installed, and otherwise notes that it is.
    pub fn installed(&mut self, exit_code: i32) -> (r: Result<(), String>)
        ensures
            final(self).home == old(self).home,
            match r {
                Ok(()) => exit_code == 0 && final(self).stress_installed,
                Err(text) => {
                    &&& exit_code != 0
                    &&& final(self).stress_installed == old(self).stress_installed
                    &&& text@ == "apk add stress-ng failed (exit "@ + integer_text(
                        exit_code as int,
                    ) + ")"@
                },
            },
    {
        match check_stress_ng(exit_code) {
            Ok(()) => {
                self.stress_installed = true;
                Ok(())
            },
            Err(text) => Err(text),
        }
    }

    /// The metrics of an iteration, given the samples of the memory and how the workload ended.
    pub fn metrics(&self, rss: &Vec<u64>, ending: Ending) -> (r: Metrics)
        ensures
            r@ == with_some(none(), "rss_pressure_max_bytes"@, whole(largest(rss@))).insert(
                "mem_pressure_exit_code"@,
                Double::integer(ending.code()),
            ).insert("mem_pressure_limit_bytes"@, Double::integer(268435456)).insert(
                "mem_pressure_alloc_bytes"@,
                Double::integer(157286400),
            ),
    {
        let m = add_some(NameMap::new(), "rss_pressure_max_bytes", max_number(rss));
        m.with("mem_pressure_exit_code", ending.number()).with(
            "mem_pressure_limit_bytes",
            Double::from_u64(MEM_LIMIT_MIB as u64 * 1024 * 1024),
        ).with(
            "mem_pressure_alloc_bytes",
            Double::from_u64(MEM_ALLOC_MIB as u64 * 1024 * 1024),
        )
    }
}

} // verus!
