//! What an idle box costs.

use crate::bench::scenarios::common::{
    add_some, alpine, alpine_options, none, number_of, whole, with_some, Home, Metrics,
};
use crate::bench::scenarios::script::{creates_at, one_box, Script, Step, StepView};
use crate::names::NameMap;
use crate::number::double::Double;
use crate::number::single::Single;
use vstd::prelude::*;

verus! {

/// `resource-idle`.
pub struct ResourceIdle {
    pub home: Home,
}

pub open spec fn percent(cpu: Option<Single>) -> Option<Double> {
    match cpu {
        Some(x) => Some(x.widened()),
        None => None,
    }
}

impl ResourceIdle {
    pub fn new() -> (r: ResourceIdle)
        ensures
            r.home.path is None,
    {
        ResourceIdle { home: Home::new() }
    }

    pub fn name(&self) -> (r: &'static str)
        ensures
            r@ == "resource-idle"@,
    {
        "resource-idle"
    }

    /// The steps of an iteration. The box is left alone for a moment before it is looked at, until
    /// it has done what it does after booting.
    pub fn script(&self) -> (r: Script)
        ensures
            r@ == seq![
                StepView::Create(alpine()),
                StepView::Start,
                StepView::Settle(3000),
                StepView::Inspect,
                StepView::Stop,
            ],
            one_box(r@),
    {
        let r = Script::new().then_run(alpine_options()).then_do(
            Step::Settle { ms: 3000 },
        ).then_do(Step::Inspect).then_do(Step::Stop);
        assert(creates_at(r@, 0));
        r
    }

    /// The metrics of an iteration: the memory, the processor and the disk that the box uses, as
    /// far as they are known.
    pub fn metrics(&self, rss: Option<u64>, cpu: Option<Single>, cow: Option<u64>) -> (r: Metrics)
        ensures
            r@ == with_some(
                with_some(
                    with_some(none(), "rss_bytes"@, whole(rss)),
                    "cpu_idle_pct"@,
                    percent(cpu),
                ),
                "cow_bytes"@,
                whole(cow),
            ),
    {
        let cpu: Option<Double> = match cpu {
            Some(x) => Some(x.to_double()),
            None => None,
        };
        let m = add_some(NameMap::new(), "rss_bytes", number_of(rss));
        let m = add_some(m, "cpu_idle_pct", cpu);
        add_some(m, "cow_bytes", number_of(cow))
    }
}

} // verus!
