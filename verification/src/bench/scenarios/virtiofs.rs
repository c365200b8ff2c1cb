//! How fast a box writes into a directory of the host.

use crate::bench::clock::Span;
use crate::bench::scenarios::common::{
    alpine, alpine_options, check_exit, integer_text, none, volume_views, zero_fill,
    zero_fill_command, BoxSpec, BoxSpecView, Home, Metrics, Volume,
};
use crate::bench::scenarios::script::{creates_at, one_box, Script, Step, StepView};
use crate::names::NameMap;
use crate::number::double::Double;
use crate::text::joined;
use vstd::prelude::*;

verus! {

/// The name of the file that is written, in the shared directory.
pub const SHARED_FILE: &'static str = "bench-virtiofs";

/// `throughput-virtiofs`.
pub struct Virtiofs {
    pub home: Home,
    /// The directory that is shared with the box.
    pub shared: Home,
}

impl Virtiofs {
    pub fn new() -> (r: Virtiofs)
        ensures
            r.home.path is None,
            r.shared.path is None,
    {
        Virtiofs { home: Home::new(), shared: Home::new() }
    }

    pub fn name(&self) -> (r: &'static str)
        ensures
            r@ == "throughput-virtiofs"@,
    {
        "throughput-virtiofs"
    }

    fn options(&self, shared: &str) -> (r: BoxSpec)
        ensures
            r@ == (BoxSpecView { volumes: seq![(shared@, "/host"@, false)], ..alpine() }),
    {
        let mut spec = alpine_options();
        spec.volumes.push(
            Volume {
                host_path: shared.to_owned(),
                guest_path: "/host".to_owned(),
                read_only: false,
            },
        );
        assert(volume_views(spec.volumes@) =~= seq![(shared@, "/host"@, false)]);
        spec
    }

    /// The steps of an iteration, with a directory of the host shared.
    pub fn script(&self, shared: &str) -> (r: Script)
        ensures
            r@ == seq![
                StepView::Create(
                    BoxSpecView { volumes: seq![(shared@, "/host"@, false)], ..alpine() },
                ),
                StepView::Start,
                StepView::Measure(zero_fill("/host/bench-virtiofs"@, 64), None, None),
                StepView::Stop,
            ],
            one_box(r@),
    {
        let r = Script::new().then_run(self.options(shared)).then_do(
            Step::Measure {
                command: zero_fill_command("/host/bench-virtiofs", 64),
                output_secs: None,
                end_secs: None,
            },
        ).then_do(Step::Stop);
        assert(creates_at(r@, 0));
        r
    }

    /// Refuses a `dd` that failed, repeating what it printed.
    pub fn check(&self, exit_code: i32, printed: &str) -> (r: Result<(), String>)
        ensures
            match r {
                Ok(()) => exit_code == 0,
                Err(text) => exit_code != 0 && text@ == "dd to /host exited non-zero ("@
                    + integer_text(exit_code as int) + ("); stderr:\n"@ + printed@),
            },
    {
        check_exit(
            exit_code,
            "dd to /host exited non-zero (",
            joined("); stderr:\n", printed).as_str(),
        )
    }

    /// The metrics of an iteration, given the rate that `dd` reports, the size of the file as the
    /// host sees it, and how long `dd` took.
    pub fn metrics(&self, mb_per_sec: Double, host_bytes: u64, wall: Span) -> (r: Metrics)
        ensures
            r@ == none().insert("virtiofs_write_mb_per_sec"@, mb_per_sec).insert(
                "virtiofs_write_bytes"@,
                Double::integer(67108864),
            ).insert("virtiofs_host_observed_bytes"@, Double::integer(host_bytes as int)).insert(
                "virtiofs_write_wall_ms"@,
                wall.milliseconds(),
            ),
    {
        NameMap::new().with("virtiofs_write_mb_per_sec", mb_per_sec).with(
            "virtiofs_write_bytes",
            Double::from_u64(67108864),
        ).with("virtiofs_host_observed_bytes", Double::from_u64(host_bytes)).with(
            "virtiofs_write_wall_ms",
            wall.as_ms(),
        )
    }
}

} // verus!
