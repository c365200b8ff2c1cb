//! Cold start of a box without a network.

use crate::bench::scenarios::common::{
    alpine, alpine_options, populate_stage_metrics, stage_metrics, BoxSpecView, Home, Metrics,
    StageTimes,
};
use crate::bench::scenarios::latency::{drive_one, one_start};
use crate::bench::scenarios::script::Script;
use vstd::prelude::*;

verus! {

/// `latency-cold-start-no-net`.
pub struct LatencyColdStartNoNet {
    pub previous_home: Home,
}

impl LatencyColdStartNoNet {
    pub fn new() -> (r: LatencyColdStartNoNet)
        ensures
            r.previous_home.path is None,
    {
        LatencyColdStartNoNet { previous_home: Home::new() }
    }

    pub fn name(&self) -> (r: &'static str)
        ensures
            r@ == "latency-cold-start-no-net"@,
    {
        "latency-cold-start-no-net"
    }

    /// The steps of an iteration.
    pub fn script(&self) -> (r: Script)
        ensures
            r@ == one_start(BoxSpecView { network: false, ..alpine() }),
    {
        let mut spec = alpine_options();
        spec.network = false;
        drive_one(spec)
    }

    /// The metrics of an iteration, whose home is kept in place of the one before.
    pub fn finish(&mut self, home: String, stages: StageTimes) -> (r: Metrics)
        ensures
            final(self).previous_home.path == Some(home),
            r@ == stage_metrics(stages),
    {
        self.previous_home.keep(home);
        populate_stage_metrics(stages)
    }
}

} // verus!
