//! Pulling an image from its registry.

use crate::bench::clock::Span;
use crate::bench::scenarios::common::{
    add_some, mib_per_sec, mib_rate, none, with_some, Home, Metrics,
};
use crate::bench::scenarios::plan::{Act, ActView, Plan};
use crate::bench::scenarios::resource_density::{known_sum, sum_known};
use crate::names::NameMap;
use crate::number::double::Double;
use vstd::prelude::*;

verus! {

/// The image that is pulled.
pub const PULLED_IMAGE: &'static str = "alpine:latest";

/// `throughput-image-pull`.
pub struct ImagePull {
    /// The home of the previous iteration, kept until the next one is over so that its removal
    /// is not measured.
    pub previous_home: Home,
}

impl ImagePull {
    pub fn new() -> (r: ImagePull)
        ensures
            r.previous_home.path is None,
    {
        ImagePull { previous_home: Home::new() }
    }

    pub fn name(&self) -> (r: &'static str)
        ensures
            r@ == "throughput-image-pull"@,
    {
        "throughput-image-pull"
    }

    /// The acts of an iteration.
    pub fn plan(&self) -> (r: Plan)
        ensures
            r@ == seq![ActView::Pull(PULLED_IMAGE@)],
    {
        Plan::new().then_do(Act::Pull { image: PULLED_IMAGE })
    }

    /// The metrics of an iteration, whose home is kept in place of the one before: how long the
    /// pull took, and the size of each layer that was pulled, where it is known.
    pub fn finish(&mut self, home: String, pull: Span, layers: &Vec<Option<u64>>) -> (r: Metrics)
        requires
            known_sum(layers@) <= u64::MAX,
        ensures
            final(self).previous_home.path == Some(home),
            r@ == with_some(
                none().insert("pull_wall_ms"@, pull.milliseconds()).insert(
                    "pulled_bytes"@,
                    Double::integer(known_sum(layers@)),
                ),
                "pull_mb_per_sec"@,
                mib_rate(known_sum(layers@), pull.milliseconds()),
            ),
    {
        self.previous_home.keep(home);
        let (bytes, _): (u64, usize) = sum_known(layers);
        let ms: Double = pull.as_ms();
        let m = NameMap::new().with("pull_wall_ms", ms).with(
            "pulled_bytes",
            Double::from_u64(bytes),
        );
        add_some(m, "pull_mb_per_sec", mib_per_sec(bytes, ms))
    }
}

} // verus!
