//! Cloning a box many times in one call, which shares one copy of the base disk between the
//! clones.

use crate::bench::clock::Span;
use crate::bench::scenarios::common::{
    alpine, check_exit, integer_text, none, source_options, stamped, zero_fill, zero_fill_command,
    BoxSpec, BoxSpecView, Command, Metrics, SourceBox,
};
use crate::bench::scenarios::plan::{stages_nothing, staged_if, Act, ActView, Plan};
use crate::names::NameMap;
use crate::number::double::Double;
use crate::render::{decimal, decimal_text, law_decimal_reads_back, lemma_decimal_prefix};
use vstd::prelude::*;

verus! {

/// How many clones one iteration makes.
pub const CLONES: usize = 10;

/// `latency-clone-batch-10`.
pub struct CloneBatch {
    pub source: SourceBox,
}

/// The name of the clone `i`, made at `nanos` nanoseconds since the epoch.
pub open spec fn clone_name(nanos: nat, i: nat) -> Seq<char> {
    "clone-"@ + decimal(nanos) + "-"@ + decimal(i)
}

/// The clones of an iteration have different names, whatever the clock says.
pub proof fn law_clone_names_differ(i: nat, j: nat, at_i: nat, at_j: nat)
    requires
        i != j,
    ensures
        clone_name(at_i, i) != clone_name(at_j, j),
{
    if clone_name(at_i, i) == clone_name(at_j, j) {
        reveal_strlit("-");
        let n = "clone-"@.len() as int;
        let x = "-"@ + decimal(i);
        let y = "-"@ + decimal(j);
        assert(clone_name(at_i, i).skip(n) =~= decimal(at_i) + x);
        assert(clone_name(at_j, j).skip(n) =~= decimal(at_j) + y);
        lemma_decimal_prefix(at_i, at_j, x, y);
        let m = decimal(at_i).len() as int;
        assert((decimal(at_i) + x).skip(m + 1) =~= decimal(i));
        assert((decimal(at_j) + y).skip(m + 1) =~= decimal(j));
        law_decimal_reads_back(i);
        law_decimal_reads_back(j);
    }
}

impl CloneBatch {
    pub fn new() -> (r: CloneBatch)
        ensures
            r.source.home.path is None,
            r.source.id is None,
    {
        CloneBatch { source: SourceBox::new() }
    }

    pub fn name(&self) -> (r: &'static str)
        ensures
            r@ == "latency-clone-batch-10"@,
    {
        "latency-clone-batch-10"
    }

    /// The source box.
    pub fn options(&self) -> (r: BoxSpec)
        ensures
            r@ == (BoxSpecView { auto_remove: false, ..alpine() }),
    {
        source_options()
    }

    /// The command that fills the source box.
    pub fn prepare_source(&self) -> (r: Command)
        ensures
            r@ == zero_fill("/tmp/baseline"@, 64),
    {
        zero_fill_command("/tmp/baseline", 64)
    }

    /// Refuses a source box that could not be filled.
    pub fn check_prepared(&self, exit_code: i32) -> (r: Result<(), String>)
        ensures
            match r {
                Ok(()) => exit_code == 0,
                Err(text) => exit_code != 0 && text@ == "dd stage exit "@ + integer_text(
                    exit_code as int,
                ) + ""@,
            },
    {
        check_exit(exit_code, "dd stage exit ", "")
    }

    /// The names of the clones, given the time at which each of them is named.
    pub fn clone_names(&self, nanos: &Vec<u128>) -> (r: Vec<String>)
        ensures
            r@.len() == nanos@.len(),
            forall|i: int|
                0 <= i < r@.len() ==> (#[trigger] r@[i])@ == clone_name(nanos@[i] as nat, i as nat),
    {
        let mut r: Vec<String> = Vec::new();
        let mut i: usize = 0;
        while i < nanos.len()
            invariant
                i <= nanos.len(),
                r@.len() == i,
                forall|j: int|
                    0 <= j < r@.len() ==> (#[trigger] r@[j])@ == clone_name(
                        nanos@[j] as nat,
                        j as nat,
                    ),
            decreases nanos.len() - i,
        {
            let mut name: String = stamped("clone-", nanos[i]);
            name.append("-");
            name.append(decimal_text(i as u64).as_str());
            r.push(name);
            i = i + 1;
        }
        r
    }

    /// The acts of an iteration. The source box is made once.
    pub fn plan(&self) -> (r: Plan)
        ensures
            r@ == staged_if(
                self.source.id is None,
                BoxSpecView { auto_remove: false, ..alpine() },
                zero_fill("/tmp/baseline"@, 64),
            ) + seq![ActView::Fetch, ActView::Clone(10), ActView::RemoveClones],
            self.source.id is Some ==> stages_nothing(r@),
    {
        Plan::new().then_stage_if(
            self.source.needs_staging(),
            self.options(),
            self.prepare_source(),
        ).then_do(Act::Fetch).then_do(Act::Clone { count: CLONES }).then_do(Act::RemoveClones)
    }

    /// The metrics of an iteration that made all its clones in one call.
    pub fn metrics(&self, batch: Span) -> (r: Metrics)
        ensures
            r@ == none().insert("clone_batch_count"@, Double::integer(10)).insert(
                "clone_batch_ms"@,
                batch.milliseconds(),
            ).insert(
                "clone_batch_per_clone_ms"@,
                batch.milliseconds().over(Double::integer(10)),
            ),
    {
        let ms: Double = batch.as_ms();
        let n: Double = Double::from_u64(10);
        NameMap::new().with("clone_batch_count", n).with("clone_batch_ms", ms).with(
            "clone_batch_per_clone_ms",
            ms.div(n),
        )
    }
}

} // verus!
