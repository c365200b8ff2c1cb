//! How fast a box writes to its disk, measured by `dd`.

use crate::bench::clock::Span;
use crate::bench::scenarios::common::{
    alpine, alpine_options, check_exit, integer_text, none, zero_fill, zero_fill_command, Home,
    Metrics,
};
use crate::bench::scenarios::script::{creates_at, one_box, Script, Step, StepView};
use crate::names::NameMap;
use crate::number::double::Double;
use crate::text::joined;
use vstd::prelude::*;

verus! {

/// `throughput-disk-write`.
pub struct DiskWrite {
    pub home: Home,
}

impl DiskWrite {
    pub fn new() -> (r: DiskWrite)
        ensures
            r.home.path is None,
    {
        DiskWrite { home: Home::new() }
    }

    pub fn name(&self) -> (r: &'static str)
        ensures
            r@ == "throughput-disk-write"@,
    {
        "throughput-disk-write"
    }

    /// The steps of an iteration.
    pub fn script(&self) -> (r: Script)
        ensures
            r@ == seq![
                StepView::Create(alpine()),
                StepView::Start,
                StepView::Measure(zero_fill("/tmp/bench-disk-write"@, 64), None, None),
                StepView::Stop,
            ],
            one_box(r@),
    {
        let r = Script::new().then_run(alpine_options()).then_do(
            Step::Measure {
                command: zero_fill_command("/tmp/bench-disk-write", 64),
                output_secs: None,
                end_secs: None,
            },
        ).then_do(Step::Stop);
        assert(creates_at(r@, 0));
        r
    }

    /// Refuses a `dd` that failed, repeating what it printed.
    pub fn check(&self, exit_code: i32, printed: &str) -> (r: Result<(), String>)
        ensures
            match r {
                Ok(()) => exit_code == 0,
                Err(text) => exit_code != 0 && text@ == "dd exited non-zero ("@ + integer_text(
                    exit_code as int,
                ) + ("); stderr:\n"@ + printed@),
            },
    {
        check_exit(exit_code, "dd exited non-zero (", joined("); stderr:\n", printed).as_str())
    }

    /// The metrics of an iteration, given the rate that `dd` reports and how long it took.
    pub fn metrics(&self, mb_per_sec: Double, wall: Span) -> (r: Metrics)
        ensures
            r@ == none().insert("disk_write_mb_per_sec"@, mb_per_sec).insert(
                "disk_write_bytes"@,
                Double::integer(67108864),
            ).insert("disk_write_wall_ms"@, wall.milliseconds()),
    {
        NameMap::new().with("disk_write_mb_per_sec", mb_per_sec).with(
            "disk_write_bytes",
            Double::from_u64(67108864),
        ).with("disk_write_wall_ms", wall.as_ms())
    }
}

} // verus!
