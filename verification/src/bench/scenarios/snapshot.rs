//! Taking a snapshot of a box and restoring it.
//!
//! The snapshots are left in place: after a restore the disk of the box depends on the snapshot.
//! Removing the box at the end removes them all.

use crate::bench::clock::Span;
use crate::bench::scenarios::common::{
    alpine, none, source_options, stamped, zero_fill, zero_fill_command, BoxSpec, BoxSpecView,
    Command, Metrics, SourceBox,
};
use crate::bench::scenarios::plan::{stages_nothing, staged_if, Act, ActView, Plan};
use crate::names::NameMap;
use crate::render::decimal;
use vstd::prelude::*;

verus! {

/// `latency-snapshot`.
pub struct Snapshot {
    pub source: SourceBox,
}

impl Snapshot {
    pub fn new() -> (r: Snapshot)
        ensures
            r.source.home.path is None,
            r.source.id is None,
    {
        Snapshot { source: SourceBox::new() }
    }

    pub fn name(&self) -> (r: &'static str)
        ensures
            r@ == "latency-snapshot"@,
    {
        "latency-snapshot"
    }

    /// The source box.
    pub fn options(&self) -> (r: BoxSpec)
        ensures
            r@ == (BoxSpecView { auto_remove: false, ..alpine() }),
    {
        source_options()
    }

    /// The command that fills the source box.
    pub fn prepare_source(&self) -> (r: Command)
        ensures
            r@ == zero_fill("/tmp/baseline"@, 64),
    {
        zero_fill_command("/tmp/baseline", 64)
    }

    /// A name for the snapshot of an iteration, unique by the time at which it is given.
    pub fn snapshot_name(&self, nanos: u128) -> (r: String)
        ensures
            r@ == "bench-snap-"@ + decimal(nanos as nat),
    {
        stamped("bench-snap-", nanos)
    }

    /// The acts of an iteration. The source box is made once.
    pub fn plan(&self) -> (r: Plan)
        ensures
            r@ == staged_if(
                self.source.id is None,
                BoxSpecView { auto_remove: false, ..alpine() },
                zero_fill("/tmp/baseline"@, 64),
            ) + seq![ActView::Fetch, ActView::Snapshots(1), ActView::Restore],
            self.source.id is Some ==> stages_nothing(r@),
    {
        Plan::new().then_stage_if(
            self.source.needs_staging(),
            self.options(),
            self.prepare_source(),
        ).then_do(Act::Fetch).then_do(Act::Snapshots { count: 1 }).then_do(Act::Restore)
    }

    /// The metrics of an iteration.
    pub fn metrics(&self, create: Span, restore: Span) -> (r: Metrics)
        ensures
            r@ == none().insert("snapshot_create_ms"@, create.milliseconds()).insert(
                "snapshot_restore_ms"@,
                restore.milliseconds(),
            ),
    {
        NameMap::new().with("snapshot_create_ms", create.as_ms()).with(
            "snapshot_restore_ms",
            restore.as_ms(),
        )
    }
}

} // verus!
