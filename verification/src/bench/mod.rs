//! Benchmarks: running scenarios, reporting their metrics and comparing reports.

use crate::number::double::Double;
use vstd::prelude::*;

pub mod accuracy;
pub mod clock;
pub mod compare;
pub mod gate;
pub mod host_info;
pub mod reaper;
pub mod report;
pub mod runner;
pub mod scenarios;
pub mod stats;
pub mod table;

verus! {

#[derive(Debug)]
pub struct BenchArgs {
    pub command: BenchCommand,
}

#[derive(Debug)]
pub enum BenchCommand {
    /// List available benchmark scenarios.
    List,
    /// Run a scenario a number of times and emit a report.
    Run(RunArgs),
    /// Compare a current report against a baseline.
    Compare(CompareArgs),
}

#[derive(Debug)]
pub struct RunArgs {
    /// Scenario name.
    pub scenario: String,
    /// Number of sample iterations. More of them tighten the percentiles and take longer.
    pub runs: usize,
    /// How many iterations are dropped before the samples are aggregated, so that a first run that
    /// pays an unrelated cost does not count.
    pub warmup: usize,
    /// Where the report is written. Without it, to standard output.
    pub out: Option<String>,
    /// A free-form label that the report carries.
    pub label: Option<String>,
}

impl RunArgs {
    /// A run of `scenario` with nothing else asked for.
    pub fn new(scenario: String) -> (r: RunArgs)
        ensures
            r.scenario == scenario,
            r.runs == 10,
            r.warmup == 0,
            r.out is None,
            r.label is None,
    {
        RunArgs { scenario, runs: 10, warmup: 0, out: None, label: None }
    }
}

#[derive(Debug)]
pub struct CompareArgs {
    /// Baseline report.
    pub baseline: String,
    /// Current report.
    pub current: String,
    /// The largest relative regression that is let pass. Improvements always pass.
    pub threshold: Double,
    /// The aggregate that is compared.
    pub on: String,
    /// Where the differences are written besides the table.
    pub json_out: Option<String>,
}

impl CompareArgs {
    /// A comparison of two reports with nothing else asked for: at most 20% on the 99th percentile,
    /// which catches regressions in the tail that a mean would smooth away.
    pub fn new(baseline: String, current: String) -> (r: CompareArgs)
        ensures
            r.baseline == baseline,
            r.current == current,
            r.threshold == (Double { bits: 0x3fc9_9999_9999_999a }),
            r.on@ == "p99"@,
            r.json_out is None,
    {
        CompareArgs {
            baseline,
            current,
            threshold: Double::from_bits(0x3fc9_9999_9999_999a),
            on: "p99".to_owned(),
            json_out: None,
        }
    }
}

} // verus!
