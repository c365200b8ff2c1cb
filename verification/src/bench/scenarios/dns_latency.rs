//! How long it takes to look up a name from inside a box: one that the box's own network
//! answers, and one of the internet. Lookups that fail are counted and not timed.

use crate::bench::accuracy::{all_finite, exact_sizes, exact_sum, lemma_mean_is_exact};
use crate::bench::clock::Span;
use crate::bench::clock::law_spans_are_measured;
use crate::bench::scenarios::common::law_peak_is_the_largest;
use crate::bench::scenarios::common::{
    alpine, alpine_options, count, none, peak, peak_of, Command, CommandView, Home, Metrics,
};
use crate::bench::scenarios::script::{creates_at, one_box, Script, Step, StepView};
use crate::bench::stats::{mean, mean_of};
use crate::names::NameMap;
use crate::number::double::Double;
use crate::number::error::distance;
use vstd::arithmetic::power2::pow2;
use vstd::prelude::*;

verus! {

/// How many lookups are made of each name.
pub const LOOKUPS_PER_NAME: usize = 20;

pub const LOCAL_TARGET: &'static str = "host.docker.internal";

pub const EXTERNAL_TARGET: &'static str = "example.com";

/// The command that looks up a name.
pub open spec fn lookup(name: Seq<char>) -> CommandView {
    CommandView { program: "getent"@, args: seq!["ahosts"@, name] }
}

fn lookup_command(name: &str) -> (r: Command)
    ensures
        r@ == lookup(name@),
{
    Command::new("getent").arg("ahosts").arg(name)
}

/// One lookup: how long it took, and how it ended.
#[derive(Clone, Copy, Debug, PartialEq, Eq, Structural)]
pub struct Lookup {
    pub elapsed: Span,
    pub exit_code: i32,
}

/// The times of the lookups that succeeded, in milliseconds.
pub open spec fn successful_times(s: Seq<Lookup>) -> Seq<Double>
    decreases s.len(),
{
    if s.len() == 0 {
        Seq::empty()
    } else if s.last().exit_code == 0 {
        successful_times(s.drop_last()).push(s.last().elapsed.milliseconds())
    } else {
        successful_times(s.drop_last())
    }
}

/// What the lookups of a name come to.
#[derive(Clone, Copy, Debug, PartialEq, Eq, Structural)]
pub struct LookupStats {
    /// The mean of the lookups that succeeded, in milliseconds; zero where none did.
    pub mean: Double,
    /// The longest of them; zero where none did.
    pub max: Double,
    pub failed: usize,
}

pub open spec fn lookup_stats(s: Seq<Lookup>) -> LookupStats {
    let times = successful_times(s);
    LookupStats {
        mean: if times.len() == 0 {
            Double::of(false, 0)
        } else {
            mean_of(times)
        },
        max: if times.len() == 0 {
            Double::of(false, 0)
        } else {
            peak_of(times)
        },
        failed: (s.len() - times.len()) as usize,
    }
}

/// What the lookups of a name come to.
pub fn measure_lookups(s: &Vec<Lookup>) -> (r: LookupStats)
    ensures
        r == lookup_stats(s@),
{
    let mut times: Vec<Double> = Vec::new();
    let mut failed: usize = 0;
    let mut i: usize = 0;
    assert(s@.take(0) == Seq::<Lookup>::empty());
    while i < s.len()
        invariant
            i <= s.len(),
            times@ == successful_times(s@.take(i as int)),
            failed + times.len() == i,
        decreases s.len() - i,
    {
        assert(s@.take(i + 1).drop_last() == s@.take(i as int));
        if s[i].exit_code == 0 {
            times.push(s[i].elapsed.as_ms());
        } else {
            failed = failed + 1;
        }
        i = i + 1;
    }
    assert(s@.take(s.len() as int) == s@);
    let zero: Double = Double::from_bits(0);
    if times.len() == 0 {
        LookupStats { mean: zero, max: zero, failed }
    } else {
        LookupStats { mean: mean(&times), max: peak(&times), failed }
    }
}

/// `throughput-dns-latency`.
pub struct DnsLatency {
    pub home: Home,
}

impl DnsLatency {
    pub fn new() -> (r: DnsLatency)
        ensures
            r.home.path is None,
    {
        DnsLatency { home: Home::new() }
    }

    pub fn name(&self) -> (r: &'static str)
        ensures
            r@ == "throughput-dns-latency"@,
    {
        "throughput-dns-latency"
    }

    /// The steps of an iteration.
    pub fn script(&self) -> (r: Script)
        ensures
            r@ == seq![
                StepView::Create(alpine()),
                StepView::Start,
                StepView::Repeat(20, lookup("host.docker.internal"@), false),
                StepView::Repeat(20, lookup("example.com"@), false),
                StepView::Stop,
            ],
            one_box(r@),
    {
        let r = Script::new().then_run(alpine_options()).then_do(
            Step::Repeat {
                times: LOOKUPS_PER_NAME,
                command: lookup_command(LOCAL_TARGET),
                partial: false,
            },
        ).then_do(
            Step::Repeat {
                times: LOOKUPS_PER_NAME,
                command: lookup_command(EXTERNAL_TARGET),
                partial: false,
            },
        ).then_do(Step::Stop);
        assert(creates_at(r@, 0));
        r
    }

    /// The metrics of an iteration.
    pub fn metrics(&self, local: &Vec<Lookup>, external: &Vec<Lookup>) -> (r: Metrics)
        ensures
            ({
                let l = lookup_stats(local@);
                let e = lookup_stats(external@);
                r@ == none().insert("dns_local_mean_ms"@, l.mean).insert(
                    "dns_local_max_ms"@,
                    l.max,
                ).insert("dns_local_failed_count"@, Double::integer(l.failed as int)).insert(
                    "dns_external_mean_ms"@,
                    e.mean,
                ).insert("dns_external_max_ms"@, e.max).insert(
                    "dns_external_failed_count"@,
                    Double::integer(e.failed as int),
                ).insert("dns_lookups_per_target_count"@, Double::integer(20))
            }),
    {
        let l = measure_lookups(local);
        let e = measure_lookups(external);
        NameMap::new().with("dns_local_mean_ms", l.mean).with("dns_local_max_ms", l.max).with(
            "dns_local_failed_count",
            count(l.failed),
        ).with("dns_external_mean_ms", e.mean).with("dns_external_max_ms", e.max).with(
            "dns_external_failed_count",
            count(e.failed),
        ).with("dns_lookups_per_target_count", count(LOOKUPS_PER_NAME))
    }
}

/// A lookup more that succeeded adds its time, in milliseconds, behind the others; one that failed
/// adds to the failures instead.
pub proof fn law_lookups_succeed_or_fail(s: Seq<Lookup>, l: Lookup)
    requires
        s.len() < usize::MAX,
    ensures
        l.exit_code == 0 ==> successful_times(s.push(l)) == successful_times(s).push(
            l.elapsed.milliseconds(),
        ) && lookup_stats(s.push(l)).failed == lookup_stats(s).failed,
        l.exit_code != 0 ==> successful_times(s.push(l)) == successful_times(s) && lookup_stats(
            s.push(l),
        ).failed == lookup_stats(s).failed + 1,
        successful_times(Seq::empty()) == Seq::<Double>::empty(),
        lookup_stats(Seq::empty()).failed == 0,
{
    assert(s.push(l).drop_last() =~= s);
    lemma_times_count(s);
    lemma_times_count(s.push(l));
}

proof fn lemma_times_count(s: Seq<Lookup>)
    ensures
        successful_times(s).len() <= s.len(),
    decreases s.len(),
{
    if s.len() > 0 {
        lemma_times_count(s.drop_last());
    }
}

proof fn lemma_times_are_finite(s: Seq<Lookup>)
    requires
        forall|i: int| 0 <= i < s.len() ==> (#[trigger] s[i]).elapsed.nanos < 1_000_000_000,
    ensures
        all_finite(successful_times(s)),
    decreases s.len(),
{
    if s.len() > 0 {
        let front = s.drop_last();
        assert(s[s.len() - 1].elapsed.nanos < 1_000_000_000);
        assert forall|i: int| 0 <= i < front.len() implies (#[trigger] front[i]).elapsed.nanos
            < 1_000_000_000 by {
            assert(s[i].elapsed.nanos < 1_000_000_000);
        }
        lemma_times_are_finite(front);
        law_spans_are_measured(s.last().elapsed);
    }
}

/// Where lookups succeeded, the longest time is that of one of them and none took longer, and the
/// mean is that of all of them: times their number it is the exact sum, but for one part in `2^52`
/// for each.
pub proof fn law_times_of_lookups(s: Seq<Lookup>)
    requires
        forall|i: int| 0 <= i < s.len() ==> (#[trigger] s[i]).elapsed.nanos < 1_000_000_000,
        0 < successful_times(s).len() <= 0x10_0000_0000_0000,
        exact_sizes(successful_times(s)) <= pow2(2096),
    ensures
        successful_times(s).contains(lookup_stats(s).max),
        forall|i: int|
            0 <= i < successful_times(s).len() ==> (#[trigger] successful_times(s)[i]).rank()
                <= lookup_stats(s).max.rank(),
        ({
            let t = successful_times(s);
            0x10_0000_0000_0000 * distance(lookup_stats(s).mean.value() * t.len(), exact_sum(t))
                <= t.len() * exact_sizes(t) + 0x8_0000_0000_0000 * t.len()
        }),
{
    lemma_times_are_finite(s);
    law_peak_is_the_largest(successful_times(s));
    lemma_mean_is_exact(successful_times(s));
}

} // verus!
