//! Cloning and exporting a box.
//!
//! Both scenarios work on a source box that holds 64 MiB of data, so that there is something to
//! move. The source is made by the first iteration and stopped; later iterations find it again.

use crate::bench::clock::Span;
use crate::bench::scenarios::common::{
    add_some, alpine, check_exit, integer_text, mib_per_sec, mib_rate, none, source_options,
    with_some, zero_fill, zero_fill_command, BoxSpec, BoxSpecView, Command, Home, Metrics,
    SourceBox,
};
use crate::bench::scenarios::plan::{stages_nothing, staged_if, Act, ActView, Plan};
use crate::names::NameMap;
use crate::number::double::Double;
use crate::render::{decimal, decimal_text};
use vstd::prelude::*;

verus! {

/// The command that fills the source box.
pub fn prepare_source() -> (r: Command)
    ensures
        r@ == zero_fill("/tmp/bench-clone-src"@, 64),
{
    zero_fill_command("/tmp/bench-clone-src", 64)
}

/// Refuses a source box that could not be filled.
pub fn check_prepared(exit_code: i32) -> (r: Result<(), String>)
    ensures
        match r {
            Ok(()) => exit_code == 0,
            Err(text) => exit_code != 0 && text@ == "dd stage failed exit "@ + integer_text(
                exit_code as int,
            ) + ""@,
        },
{
    check_exit(exit_code, "dd stage failed exit ", "")
}

/// `latency-clone`.
pub struct LatencyClone {
    pub source: SourceBox,
}

impl LatencyClone {
    pub fn new() -> (r: LatencyClone)
        ensures
            r.source.home.path is None,
            r.source.id is None,
    {
        LatencyClone { source: SourceBox::new() }
    }

    pub fn name(&self) -> (r: &'static str)
        ensures
            r@ == "latency-clone"@,
    {
        "latency-clone"
    }

    /// The source box.
    pub fn options(&self) -> (r: BoxSpec)
        ensures
            r@ == (BoxSpecView { auto_remove: false, ..alpine() }),
    {
        source_options()
    }

    /// The acts of an iteration. The source box is made once.
    pub fn plan(&self) -> (r: Plan)
        ensures
            r@ == staged_if(
                self.source.id is None,
                BoxSpecView { auto_remove: false, ..alpine() },
                zero_fill("/tmp/bench-clone-src"@, 64),
            ) + seq![ActView::Fetch, ActView::Clone(1), ActView::RemoveClones],
            self.source.id is Some ==> stages_nothing(r@),
    {
        Plan::new().then_stage_if(
            self.source.needs_staging(),
            self.options(),
            prepare_source(),
        ).then_do(Act::Fetch).then_do(Act::Clone { count: 1 }).then_do(Act::RemoveClones)
    }

    /// The metrics of an iteration that cloned the source once.
    pub fn metrics(&self, clone: Span) -> (r: Metrics)
        ensures
            r@ == none().insert("clone_ms"@, clone.milliseconds()),
    {
        NameMap::new().with("clone_ms", clone.as_ms())
    }
}

/// `throughput-export`.
pub struct ThroughputExport {
    pub source: SourceBox,
    /// Where the archives are written.
    pub export_scratch: Home,
}

impl ThroughputExport {
    pub fn new() -> (r: ThroughputExport)
        ensures
            r.source.home.path is None,
            r.source.id is None,
            r.export_scratch.path is None,
    {
        ThroughputExport { source: SourceBox::new(), export_scratch: Home::new() }
    }

    pub fn name(&self) -> (r: &'static str)
        ensures
            r@ == "throughput-export"@,
    {
        "throughput-export"
    }

    /// The source box.
    pub fn options(&self) -> (r: BoxSpec)
        ensures
            r@ == (BoxSpecView { auto_remove: false, ..alpine() }),
    {
        source_options()
    }

    /// The file name of the archive that a process writes.
    pub fn archive_name(&self, process: u32) -> (r: String)
        ensures
            r@ == "export-"@ + decimal(process as nat) + ".boxlite"@,
    {
        let mut r: String = "export-".to_owned();
        r.append(decimal_text(process as u64).as_str());
        r.append(".boxlite");
        r
    }

    /// The acts of an iteration. The source box is made once.
    pub fn plan(&self) -> (r: Plan)
        ensures
            r@ == staged_if(
                self.source.id is None,
                BoxSpecView { auto_remove: false, ..alpine() },
                zero_fill("/tmp/bench-clone-src"@, 64),
            ) + seq![ActView::Fetch, ActView::Export],
            self.source.id is Some ==> stages_nothing(r@),
    {
        Plan::new().then_stage_if(
            self.source.needs_staging(),
            self.options(),
            prepare_source(),
        ).then_do(Act::Fetch).then_do(Act::Export)
    }

    /// The metrics of an iteration that wrote an archive of `bytes` bytes.
    pub fn metrics(&self, export: Span, bytes: u64) -> (r: Metrics)
        ensures
            r@ == with_some(
                none().insert("export_ms"@, export.milliseconds()).insert(
                    "export_bytes"@,
                    Double::integer(bytes as int),
                ),
                "export_mb_per_sec"@,
                mib_rate(bytes as int, export.milliseconds()),
            ),
    {
        let ms: Double = export.as_ms();
        let m = NameMap::new().with("export_ms", ms).with("export_bytes", Double::from_u64(bytes));
        add_some(m, "export_mb_per_sec", mib_per_sec(bytes, ms))
    }
}

} // verus!
