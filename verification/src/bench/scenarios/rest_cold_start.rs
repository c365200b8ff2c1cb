//! Cold start of a box over the REST interface.

use crate::bench::scenarios::common::{
    alpine, alpine_options, populate_stage_metrics, stage_metrics, Metrics, StageTimes,
};
use crate::bench::scenarios::latency::{drive_one, one_start};
use crate::bench::scenarios::script::Script;
use vstd::prelude::*;

verus! {

/// `latency-rest-cold-start`.
pub struct RestColdStart;

impl RestColdStart {
    pub fn new() -> (r: RestColdStart)
        ensures
            r == RestColdStart,
    {
        RestColdStart
    }

    pub fn name(&self) -> (r: &'static str)
        ensures
            r@ == "latency-rest-cold-start"@,
    {
        "latency-rest-cold-start"
    }

    /// The steps of an iteration.
    pub fn script(&self) -> (r: Script)
        ensures
            r@ == one_start(alpine()),
    {
        drive_one(alpine_options())
    }

    /// The metrics of an iteration.
    pub fn metrics(&self, stages: StageTimes) -> (r: Metrics)
        ensures
            r@ == stage_metrics(stages),
    {
        populate_stage_metrics(stages)
    }
}

} // verus!
