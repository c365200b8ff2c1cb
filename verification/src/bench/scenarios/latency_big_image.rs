//! Cold start of a box with an image of several layers.

use crate::bench::scenarios::common::{
    alpine, alpine_options, populate_stage_metrics, stage_metrics, BoxSpecView, Home, Metrics,
    StageTimes,
};
use crate::bench::scenarios::latency::{drive_one, one_start};
use crate::bench::scenarios::script::Script;
use vstd::prelude::*;

verus! {

/// The image.
pub const BIG_IMAGE: &'static str = "python:3.12-alpine";

/// `latency-cold-start-big-image`.
pub struct LatencyColdStartBigImage {
    pub previous_home: Home,
}

impl LatencyColdStartBigImage {
    pub fn new() -> (r: LatencyColdStartBigImage)
        ensures
            r.previous_home.path is None,
    {
        LatencyColdStartBigImage { previous_home: Home::new() }
    }

    pub fn name(&self) -> (r: &'static str)
        ensures
            r@ == "latency-cold-start-big-image"@,
    {
        "latency-cold-start-big-image"
    }

    /// The steps of an iteration.
    pub fn script(&self) -> (r: Script)
        ensures
            r@ == one_start(BoxSpecView { image: "python:3.12-alpine"@, ..alpine() }),
    {
        let mut spec = alpine_options();
        spec.image = BIG_IMAGE.to_owned();
        drive_one(spec)
    }

    /// The metrics of an iteration, whose home is kept in place of the one before.
    pub fn finish(&mut self, home: String, stages: StageTimes) -> (r: Metrics)
        ensures
            final(self).previous_home.path == Some(home),
            r@ == stage_metrics(stages),
    {
        self.previous_home.keep(home);
        populate_stage_metrics(stages)
    }
}

} // verus!
