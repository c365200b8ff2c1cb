//! How long it takes to create and start a box.
//!
//! `latency-cold-start` makes a fresh home for every iteration, so that the image, the base disk
//! and the guest's root file system are all built anew. `latency-warm-start` shares one home, so
//! that only the first iteration pays for them.

use crate::bench::scenarios::common::{
    alpine, alpine_options, populate_stage_metrics, stage_metrics, BoxSpec, BoxSpecView, Home,
    Metrics, StageTimes,
};
use crate::bench::scenarios::script::{creates_at, one_box, Script, Step, StepView};
use vstd::prelude::*;

verus! {

/// The steps of an iteration that creates and starts a box, and reads how long that took.
pub open spec fn one_start(spec: BoxSpecView) -> Seq<StepView> {
    seq![StepView::Create(spec), StepView::Start, StepView::Inspect, StepView::Stop]
}

/// The steps of an iteration that creates and starts a box, and reads how long that took.
pub fn drive_one(spec: BoxSpec) -> (r: Script)
    ensures
        r@ == one_start(spec@),
        one_box(r@),
{
    let r = Script::new().then_run(spec).then_do(Step::Inspect).then_do(Step::Stop);
    assert(r@ =~= one_start(spec@));
    assert(creates_at(r@, 0));
    r
}

/// `latency-cold-start`.
pub struct ColdStart {
    /// The home of the previous iteration, kept until the next one is over so that its removal
    /// is not measured.
    pub previous_home: Home,
}

impl ColdStart {
    pub fn new() -> (r: ColdStart)
        ensures
            r.previous_home.path is None,
    {
        ColdStart { previous_home: Home::new() }
    }

    pub fn name(&self) -> (r: &'static str)
        ensures
            r@ == "latency-cold-start"@,
    {
        "latency-cold-start"
    }

    /// The steps of an iteration.
    pub fn script(&self) -> (r: Script)
        ensures
            r@ == one_start(alpine()),
    {
        drive_one(alpine_options())
    }

    /// The metrics of an iteration, whose home is kept in place of the one before.
    pub fn finish(&mut self, home: String, stages: StageTimes) -> (r: Metrics)
        ensures
            final(self).previous_home.path == Some(home),
            r@ == stage_metrics(stages),
    {
        self.previous_home.keep(home);
        populate_stage_metrics(stages)
    }
}

/// `latency-warm-start`.
pub struct WarmStart {
    pub home: Home,
}

impl WarmStart {
    pub fn new() -> (r: WarmStart)
        ensures
            r.home.path is None,
    {
        WarmStart { home: Home::new() }
    }

    pub fn name(&self) -> (r: &'static str)
        ensures
            r@ == "latency-warm-start"@,
    {
        "latency-warm-start"
    }

    /// The steps of an iteration.
    pub fn script(&self) -> (r: Script)
        ensures
            r@ == one_start(alpine()),
    {
        drive_one(alpine_options())
    }

    /// The metrics of an iteration.
    pub fn metrics(&self, stages: StageTimes) -> (r: Metrics)
        ensures
            r@ == stage_metrics(stages),
    {
        populate_stage_metrics(stages)
    }
}

} // verus!
