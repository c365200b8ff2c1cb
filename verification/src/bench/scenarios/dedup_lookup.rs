//! Asking for a box by a name that exists already.

use crate::bench::clock::Span;
use crate::bench::scenarios::common::{
    add_some, alpine, alpine_options, in_us, none, peak, peak_of, to_us, with_some, BoxSpec, Home,
    Metrics,
};
use crate::bench::scenarios::plan::{Act, ActView, Plan};
use crate::bench::stats::{mean, mean_of};
use crate::names::NameMap;
use crate::number::double::Double;
use vstd::prelude::*;

verus! {

/// How many times an iteration asks for the box.
pub const LOOKUPS: usize = 100;

/// The name of the box.
pub const TARGET: &'static str = "bench-dedup-target";

/// `latency-get-or-create-dedup`.
pub struct DedupLookup {
    pub home: Home,
    /// How long it took to create the box, in milliseconds, once it exists.
    pub first_create_ms: Option<Double>,
}

impl DedupLookup {
    pub fn new() -> (r: DedupLookup)
        ensures
            r.home.path is None,
            r.first_create_ms is None,
    {
        DedupLookup { home: Home::new(), first_create_ms: None }
    }

    pub fn name(&self) -> (r: &'static str)
        ensures
            r@ == "latency-get-or-create-dedup"@,
    {
        "latency-get-or-create-dedup"
    }

    /// The box.
    pub fn options(&self) -> (r: BoxSpec)
        ensures
            r@ == alpine(),
    {
        alpine_options()
    }

    /// Whether the box is still to be created.
    pub fn needs_creation(&self) -> (r: bool)
        ensures
            r == (self.first_create_ms is None),
    {
        self.first_create_ms.is_none()
    }

    /// Notes that the box was created. Only the first time counts.
    pub fn created(&mut self, elapsed: Span)
        ensures
            final(self).home == old(self).home,
            final(self).first_create_ms == match old(self).first_create_ms {
                Some(ms) => Some(ms),
                None => Some(elapsed.milliseconds()),
            },
    {
        if self.first_create_ms.is_none() {
            self.first_create_ms = Some(elapsed.as_ms());
        }
    }

    /// The acts of an iteration. The first one asks once more, which creates the box.
    pub fn plan(&self) -> (r: Plan)
        ensures
            r@ == (if self.first_create_ms is None {
                seq![ActView::LookUp(1, TARGET@, alpine()), ActView::Keep]
            } else {
                Seq::empty()
            }) + seq![ActView::LookUp(100, TARGET@, alpine())],
    {
        let p = if self.needs_creation() {
            Plan::new().then_do(
                Act::LookUp { times: 1, name: TARGET, spec: self.options() },
            ).then_do(Act::Keep)
        } else {
            Plan::new()
        };
        p.then_do(Act::LookUp { times: LOOKUPS, name: TARGET, spec: self.options() })
    }

    /// The metrics of an iteration.
    pub fn metrics(&self, hits: &Vec<Span>) -> (r: Metrics)
        ensures
            r@ == with_some(
                none().insert("dedup_count"@, Double::integer(100)),
                "dedup_first_create_ms"@,
                self.first_create_ms,
            ).insert("dedup_hit_mean_us"@, mean_of(in_us(hits@))).insert(
                "dedup_hit_max_us"@,
                peak_of(in_us(hits@)),
            ),
    {
        let times = to_us(hits);
        let m = NameMap::new().with("dedup_count", Double::from_u64(100));
        let m = add_some(m, "dedup_first_create_ms", self.first_create_ms);
        m.with("dedup_hit_mean_us", mean(&times)).with("dedup_hit_max_us", peak(&times))
    }
}

} // verus!
