//! Taking many snapshots of one box.
//!
//! The snapshots are not removed: each makes the disk of the box depend on it.

use crate::bench::clock::Span;
use crate::bench::scenarios::common::{
    alpine, check_exit, difference, growth, in_ms, integer_text, none, peak, peak_of,
    source_options, to_ms, zero_fill, zero_fill_command, BoxSpec, BoxSpecView, Command, Metrics,
    SourceBox,
};
use crate::bench::scenarios::plan::{stages_nothing, staged_if, Act, ActView, Plan};
use crate::bench::scenarios::restart_loop::{known_size, size_or_zero};
use crate::bench::stats::{mean, mean_of};
use crate::names::NameMap;
use crate::number::double::Double;
use crate::render::{decimal, decimal_chars, decimal_text, lemma_decimal_prefix};
use crate::text::string_of;
use vstd::prelude::*;

verus! {

/// How many snapshots an iteration takes.
pub const SNAPSHOTS: usize = 20;

/// `stability-snapshot-loop`.
pub struct SnapshotLoop {
    pub source: SourceBox,
}

/// The name of a snapshot: its number, and the time at which it is named.
pub open spec fn loop_name(number: nat, nanos: nat) -> Seq<char> {
    "bench-snap-loop-"@ + decimal(number) + "-"@ + decimal(nanos)
}

/// Snapshots with different numbers have different names, whatever the clock says.
pub proof fn law_snapshot_names_differ(i: nat, j: nat, at_i: nat, at_j: nat)
    requires
        i != j,
    ensures
        loop_name(i, at_i) != loop_name(j, at_j),
{
    if loop_name(i, at_i) == loop_name(j, at_j) {
        reveal_strlit("-");
        let n = "bench-snap-loop-"@.len() as int;
        let x = "-"@ + decimal(at_i);
        let y = "-"@ + decimal(at_j);
        assert(loop_name(i, at_i).skip(n) =~= decimal(i) + x);
        assert(loop_name(j, at_j).skip(n) =~= decimal(j) + y);
        lemma_decimal_prefix(i, j, x, y);
    }
}

impl SnapshotLoop {
    pub fn new() -> (r: SnapshotLoop)
        ensures
            r.source.home.path is None,
            r.source.id is None,
    {
        SnapshotLoop { source: SourceBox::new() }
    }

    pub fn name(&self) -> (r: &'static str)
        ensures
            r@ == "stability-snapshot-loop"@,
    {
        "stability-snapshot-loop"
    }

    /// The source box.
    pub fn options(&self) -> (r: BoxSpec)
        ensures
            r@ == (BoxSpecView { auto_remove: false, ..alpine() }),
    {
        source_options()
    }

    /// The command that fills the source box.
    pub fn prepare_source(&self) -> (r: Command)
        ensures
            r@ == zero_fill("/tmp/snap-baseline"@, 32),
    {
        zero_fill_command("/tmp/snap-baseline", 32)
    }

    /// Refuses a source box that could not be filled.
    pub fn check_prepared(&self, exit_code: i32) -> (r: Result<(), String>)
        ensures
            match r {
                Ok(()) => exit_code == 0,
                Err(text) => exit_code != 0 && text@ == "dd stage failed exit "@ + integer_text(
                    exit_code as int,
                ) + ""@,
            },
    {
        check_exit(exit_code, "dd stage failed exit ", "")
    }

    /// The acts of an iteration. The source box is made once.
    pub fn plan(&self) -> (r: Plan)
        ensures
            r@ == staged_if(
                self.source.id is None,
                BoxSpecView { auto_remove: false, ..alpine() },
                zero_fill("/tmp/snap-baseline"@, 32),
            ) + seq![
                ActView::Fetch,
                ActView::ReadDisk,
                ActView::Snapshots(20),
                ActView::ReadDisk,
            ],
            self.source.id is Some ==> stages_nothing(r@),
    {
        Plan::new().then_stage_if(
            self.source.needs_staging(),
            self.options(),
            self.prepare_source(),
        ).then_do(Act::Fetch).then_do(Act::ReadDisk).then_do(
            Act::Snapshots { count: SNAPSHOTS },
        ).then_do(Act::ReadDisk)
    }

    /// The name of a snapshot, unique by its number and the time at which it is named.
    pub fn snapshot_name(&self, number: usize, nanos: u128) -> (r: String)
        ensures
            r@ == loop_name(number as nat, nanos as nat),
    {
        let digits = decimal_chars(nanos);
        let mut r: String = "bench-snap-loop-".to_owned();
        r.append(decimal_text(number as u64).as_str());
        r.append("-");
        r.append(string_of(&digits).as_str());
        r
    }

    /// The metrics of an iteration: how long each snapshot took, and the disk of the box before
    /// and after.
    pub fn metrics(&self, takes: &Vec<Span>, cow_before: Option<u64>, cow_after: Option<u64>) -> (r:
        Metrics)
        ensures
            r@ == none().insert("snap_loop_cycles"@, Double::integer(20)).insert(
                "snap_loop_create_mean_ms"@,
                mean_of(in_ms(takes@)),
            ).insert("snap_loop_create_max_ms"@, peak_of(in_ms(takes@))).insert(
                "snap_loop_cow_growth_bytes"@,
                growth(size_or_zero(cow_before), size_or_zero(cow_after)),
            ),
    {
        let times = to_ms(takes);
        NameMap::new().with("snap_loop_cycles", Double::from_u64(20)).with(
            "snap_loop_create_mean_ms",
            mean(&times),
        ).with("snap_loop_create_max_ms", peak(&times)).with(
            "snap_loop_cow_growth_bytes",
            difference(known_size(cow_before), known_size(cow_after)),
        )
    }
}

} // verus!
