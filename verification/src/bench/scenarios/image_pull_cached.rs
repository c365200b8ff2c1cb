//! Pulling an image that is there already.

use crate::bench::clock::Span;
use crate::bench::scenarios::common::{none, Home, Metrics};
use crate::bench::scenarios::plan::{Act, ActView, Plan};
use crate::names::NameMap;
use crate::number::double::Double;
use vstd::prelude::*;

verus! {

/// The image that is pulled.
pub const IMAGE: &'static str = "alpine:latest";

/// `latency-image-pull-cached`.
pub struct ImagePullCached {
    pub home: Home,
    /// How many iterations are complete.
    pub iter: u64,
}

impl ImagePullCached {
    pub fn new() -> (r: ImagePullCached)
        ensures
            r.home.path is None,
            r.iter == 0,
    {
        ImagePullCached { home: Home::new(), iter: 0 }
    }

    pub fn name(&self) -> (r: &'static str)
        ensures
            r@ == "latency-image-pull-cached"@,
    {
        "latency-image-pull-cached"
    }

    /// The acts of an iteration.
    pub fn plan(&self) -> (r: Plan)
        ensures
            r@ == seq![ActView::Pull(IMAGE@)],
    {
        Plan::new().then_do(Act::Pull { image: IMAGE })
    }

    /// The metrics of an iteration, which is counted with that.
    pub fn finish(&mut self, pull: Span) -> (r: Metrics)
        requires
            old(self).iter < u64::MAX,
        ensures
            final(self).home == old(self).home,
            final(self).iter == old(self).iter + 1,
            r@ == none().insert("pull_cached_ms"@, pull.milliseconds()).insert(
                "pull_cached_iter"@,
                Double::integer(old(self).iter + 1),
            ),
    {
        self.iter = self.iter + 1;
        NameMap::new().with("pull_cached_ms", pull.as_ms()).with(
            "pull_cached_iter",
            Double::from_u64(self.iter),
        )
    }
}

} // verus!
