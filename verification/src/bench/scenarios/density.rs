//! Starting many boxes at once.

use crate::bench::clock::Span;
use crate::bench::scenarios::common::{
    alpine, alpine_options, in_ms, none, peak, peak_of, to_ms, BoxSpec, Home, Metrics,
};
use crate::bench::scenarios::plan::{warmed_if, Act, ActView, Plan};
use crate::bench::stats::{mean, mean_of};
use crate::names::{texts, NameMap};
use crate::number::double::Double;
use crate::render::{decimal, decimal_text};
use crate::text::{join, listed};
use vstd::prelude::*;

verus! {

/// How many boxes an iteration starts.
pub const BURST: usize = 10;

/// `density-parallel-10`.
pub struct DensityParallel10 {
    pub home: Home,
    /// Whether a first box was started and stopped, so that the image is there.
    pub prewarmed: bool,
}

/// What a burst with failures is refused with.
pub open spec fn burst_text(n: nat, errors: Seq<Seq<char>>) -> Seq<char> {
    "density burst had "@ + decimal(errors.len()) + " failure(s) (out of "@ + decimal(n) + "): "@
        + listed(errors, "; "@)
}

/// The times of the boxes that came up, in order.
pub open spec fn started(outcomes: Seq<Result<Span, String>>) -> Seq<Span>
    decreases outcomes.len(),
{
    if outcomes.len() == 0 {
        Seq::empty()
    } else {
        match outcomes.last() {
            Ok(elapsed) => started(outcomes.drop_last()).push(elapsed),
            Err(_) => started(outcomes.drop_last()),
        }
    }
}

/// The errors of the boxes that did not, in order.
pub open spec fn failures(outcomes: Seq<Result<Span, String>>) -> Seq<Seq<char>>
    decreases outcomes.len(),
{
    if outcomes.len() == 0 {
        Seq::empty()
    } else {
        match outcomes.last() {
            Ok(_) => failures(outcomes.drop_last()),
            Err(text) => failures(outcomes.drop_last()).push(text@),
        }
    }
}

fn burst_message(n: usize, errors: &Vec<String>) -> (r: String)
    ensures
        r@ == burst_text(n as nat, texts(errors@)),
{
    let mut text: String = "density burst had ".to_owned();
    text.append(decimal_text(errors.len() as u64).as_str());
    text.append(" failure(s) (out of ");
    text.append(decimal_text(n as u64).as_str());
    text.append("): ");
    text.append(join(errors, "; ").as_str());
    text
}

impl DensityParallel10 {
    pub fn new() -> (r: DensityParallel10)
        ensures
            r.home.path is None,
            !r.prewarmed,
    {
        DensityParallel10 { home: Home::new(), prewarmed: false }
    }

    pub fn name(&self) -> (r: &'static str)
        ensures
            r@ == "density-parallel-10"@,
    {
        "density-parallel-10"
    }

    /// Each of the boxes.
    pub fn options(&self) -> (r: BoxSpec)
        ensures
            r@ == alpine(),
    {
        alpine_options()
    }

    /// Whether a first box is still to be started and stopped.
    pub fn needs_prewarm(&self) -> (r: bool)
        ensures
            r == !self.prewarmed,
    {
        !self.prewarmed
    }

    /// Notes that a first box was started and stopped.
    pub fn warmed(&mut self)
        ensures
            final(self).prewarmed,
            final(self).home == old(self).home,
    {
        self.prewarmed = true;
    }

    /// The acts of an iteration. The first box is started once.
    pub fn plan(&self) -> (r: Plan)
        ensures
            r@ == warmed_if(!self.prewarmed, alpine()) + seq![ActView::Burst(10, alpine())],
    {
        Plan::new().then_warm_if(self.needs_prewarm(), self.options()).then_do(
            Act::Burst { count: BURST, spec: self.options() },
        )
    }

    /// The times that the boxes of a burst took to run, given what became of each. A burst in
    /// which some of them failed is refused with all the errors.
    pub fn collect_burst(&self, outcomes: &Vec<Result<Span, String>>) -> (r: Result<
        Vec<Span>,
        String,
    >)
        ensures
            match r {
                Ok(times) => failures(outcomes@).len() == 0 && times@ == started(outcomes@),
                Err(text) => failures(outcomes@).len() > 0 && text@ == burst_text(
                    outcomes@.len(),
                    failures(outcomes@),
                ),
            },
    {
        let mut times: Vec<Span> = Vec::new();
        let mut errors: Vec<String> = Vec::new();
        let mut i: usize = 0;
        assert(outcomes@.take(0) == Seq::<Result<Span, String>>::empty());
        assert(texts(errors@) =~= Seq::<Seq<char>>::empty());
        while i < outcomes.len()
            invariant
                i <= outcomes.len(),
                times@ == started(outcomes@.take(i as int)),
                texts(errors@) == failures(outcomes@.take(i as int)),
            decreases outcomes.len() - i,
        {
            let ghost done = texts(errors@);
            assert(outcomes@.take(i + 1).drop_last() == outcomes@.take(i as int));
            match &outcomes[i] {
                Ok(elapsed) => {
                    times.push(*elapsed);
                },
                Err(text) => {
                    let error: String = text.clone();
                    errors.push(error);
                    assert(texts(errors@) =~= done.push(error@));
                },
            }
            i = i + 1;
        }
        assert(outcomes@.take(outcomes.len() as int) == outcomes@);
        if errors.len() == 0 {
            Ok(times)
        } else {
            Err(burst_message(outcomes.len(), &errors))
        }
    }

    /// The metrics of an iteration, given how long each box took to run.
    pub fn metrics(&self, starts: &Vec<Span>) -> (r: Metrics)
        ensures
            r@ == none().insert("parallel_max_latency_ms"@, peak_of(in_ms(starts@))).insert(
                "parallel_mean_latency_ms"@,
                mean_of(in_ms(starts@)),
            ).insert("parallel_boxes_count"@, Double::integer(10)),
    {
        let times = to_ms(starts);
        NameMap::new().with("parallel_max_latency_ms", peak(&times)).with(
            "parallel_mean_latency_ms",
            mean(&times),
        ).with("parallel_boxes_count", Double::from_u64(10))
    }
}

/// A box more that came up adds its time behind the others; one that did not adds its error.
pub proof fn law_boxes_start_or_fail(
    outcomes: Seq<Result<Span, String>>,
    elapsed: Span,
    error: String,
)
    ensures
        started(outcomes.push(Ok(elapsed))) == started(outcomes).push(elapsed),
        failures(outcomes.push(Ok(elapsed))) == failures(outcomes),
        started(outcomes.push(Err(error))) == started(outcomes),
        failures(outcomes.push(Err(error))) == failures(outcomes).push(error@),
        started(Seq::empty()) == Seq::<Span>::empty(),
        failures(Seq::empty()) == Seq::<Seq<char>>::empty(),
{
    assert(outcomes.push(Ok(elapsed)).drop_last() =~= outcomes);
    assert(outcomes.push(Err(error)).drop_last() =~= outcomes);
}

/// Every box either came up or did not.
pub proof fn law_outcomes_add_up(outcomes: Seq<Result<Span, String>>)
    ensures
        started(outcomes).len() + failures(outcomes).len() == outcomes.len(),
    decreases outcomes.len(),
{
    if outcomes.len() > 0 {
        law_outcomes_add_up(outcomes.drop_last());
    }
}

} // verus!
