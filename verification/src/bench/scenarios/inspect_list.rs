//! Listing and looking up boxes in a store that holds many.

use crate::bench::clock::Span;
use crate::bench::scenarios::common::{
    alpine, count, in_ms, none, peak, peak_of, source_options, to_ms, BoxSpec, BoxSpecView, Home,
    Metrics,
};
use crate::bench::scenarios::plan::{populated_if, stages_nothing, Act, ActView, Plan};
use crate::bench::stats::{mean, mean_of};
use crate::names::NameMap;
use crate::number::double::Double;
use vstd::prelude::*;

verus! {

/// How many boxes are in the store. They are created and never started.
pub const POPULATION: usize = 20;

/// `latency-inspect-list`.
pub struct InspectList {
    pub home: Home,
    pub box_ids: Vec<String>,
}

impl InspectList {
    pub fn new() -> (r: InspectList)
        ensures
            r.home.path is None,
            r.box_ids@.len() == 0,
    {
        InspectList { home: Home::new(), box_ids: Vec::new() }
    }

    pub fn name(&self) -> (r: &'static str)
        ensures
            r@ == "latency-inspect-list"@,
    {
        "latency-inspect-list"
    }

    /// The boxes that fill the store.
    pub fn options(&self) -> (r: BoxSpec)
        ensures
            r@ == (BoxSpecView { auto_remove: false, ..alpine() }),
    {
        source_options()
    }

    /// How many boxes are still to be created: all of them before the first iteration, none
    /// after it.
    pub fn missing(&self) -> (r: usize)
        ensures
            r == if self.box_ids@.len() == 0 {
                20
            } else {
                0int
            },
    {
        if self.box_ids.len() == 0 {
            POPULATION
        } else {
            0
        }
    }

    /// Keeps a box that was created.
    pub fn created(&mut self, id: String)
        ensures
            final(self).box_ids@ == old(self).box_ids@.push(id),
            final(self).home == old(self).home,
    {
        self.box_ids.push(id);
    }

    /// The acts of an iteration. The store is filled once.
    pub fn plan(&self) -> (r: Plan)
        ensures
            r@ == populated_if(
                if self.box_ids@.len() == 0 {
                    20
                } else {
                    0
                },
                BoxSpecView { auto_remove: false, ..alpine() },
                false,
            ) + seq![ActView::List, ActView::Inspect],
            self.box_ids@.len() > 0 ==> stages_nothing(r@),
    {
        Plan::new().then_populate_if(self.missing(), self.options(), false).then_do(
            Act::List,
        ).then_do(Act::Inspect)
    }

    /// The metrics of an iteration that listed `listed` boxes and looked each of them up.
    pub fn metrics(&self, listed: usize, list: Span, lookups: &Vec<Span>) -> (r: Metrics)
        ensures
            r@ == none().insert("list_info_count"@, Double::integer(listed as int)).insert(
                "list_info_ms"@,
                list.milliseconds(),
            ).insert("get_info_mean_ms"@, mean_of(in_ms(lookups@))).insert(
                "get_info_max_ms"@,
                peak_of(in_ms(lookups@)),
            ).insert("get_info_samples_count"@, Double::integer(lookups@.len() as int)),
    {
        let times = to_ms(lookups);
        NameMap::new().with("list_info_count", count(listed)).with(
            "list_info_ms",
            list.as_ms(),
        ).with("get_info_mean_ms", mean(&times)).with("get_info_max_ms", peak(&times)).with(
            "get_info_samples_count",
            count(times.len()),
        )
    }

    /// The boxes that the teardown removes, which are forgotten with that. Without a home there
    /// is nothing to remove them from.
    pub fn leftovers(&mut self) -> (r: Vec<String>)
        ensures
            final(self).home == old(self).home,
            old(self).home.path is None ==> r@.len() == 0 && final(self).box_ids
                == old(self).box_ids,
            old(self).home.path is Some ==> r@ == old(self).box_ids@ && final(self).box_ids@.len()
                == 0,
    {
        let mut r: Vec<String> = Vec::new();
        if !self.home.is_missing() {
            r.append(&mut self.box_ids);
            assert(r@ =~= old(self).box_ids@);
        }
        r
    }
}

} // verus!
