//! What it costs to watch the health of a box.
//!
//! The box is asked for its health twice a second, far more often than usual, so that the cost
//! shows.

use crate::bench::scenarios::common::{
    add_some, alpine, alpine_options, count, first, get_first, get_second, largest, max_number,
    mean_and_max, none, number_of, second, single_stats, whole, with_some, BoxSpec, BoxSpecView,
    HealthCheck, Home, Metrics,
};
use crate::bench::scenarios::script::{creates_at, one_box, Script, Step, StepView};
use crate::names::NameMap;
use crate::number::double::Double;
use crate::number::single::Single;
use vstd::arithmetic::div_mod::lemma_fundamental_div_mod;
use vstd::prelude::*;

verus! {

/// How often the box is asked, in milliseconds.
pub const HEALTHCHECK_INTERVAL_MS: u64 = 500;

/// The sum of the numbers.
pub open spec fn sum_of(s: Seq<u64>) -> int
    decreases s.len(),
{
    if s.len() == 0 {
        0
    } else {
        sum_of(s.drop_last()) + s.last()
    }
}

/// The mean of the numbers, rounded down, if there are any.
pub open spec fn whole_mean(s: Seq<u64>) -> Option<u64> {
    if s.len() > 0 {
        Some((sum_of(s) / s.len() as int) as u64)
    } else {
        None
    }
}

proof fn lemma_sum_bound(s: Seq<u64>)
    ensures
        0 <= sum_of(s) <= s.len() * u64::MAX,
    decreases s.len(),
{
    if s.len() > 0 {
        lemma_sum_bound(s.drop_last());
        assert(s.len() * u64::MAX == (s.len() - 1) * u64::MAX + u64::MAX) by (nonlinear_arith);
    }
}

fn mean_whole(s: &Vec<u64>) -> (r: Option<u64>)
    ensures
        r == whole_mean(s@),
{
    if s.len() == 0 {
        return None;
    }
    let mut sum: u128 = 0;
    let mut i: usize = 0;
    assert(s@.take(0) == Seq::<u64>::empty());
    while i < s.len()
        invariant
            i <= s.len(),
            sum == sum_of(s@.take(i as int)),
        decreases s.len() - i,
    {
        assert(s@.take(i + 1).drop_last() == s@.take(i as int));
        proof {
            lemma_sum_bound(s@.take(i as int));
            assert(i * u64::MAX <= 0xffff_ffff_ffff_ffff * 0xffff_ffff_ffff_ffff)
                by (nonlinear_arith)
                requires
                    0 <= i <= 0xffff_ffff_ffff_ffff,
            ;
        }
        sum = sum + s[i] as u128;
        i = i + 1;
    }
    proof {
        assert(s@.take(s.len() as int) == s@);
        lemma_sum_bound(s@);
        let n = s.len() as int;
        assert(sum as int / n <= u64::MAX) by (nonlinear_arith)
            requires
                0 <= sum <= n * u64::MAX,
                n > 0,
        ;
        assert(sum as int / n >= 0) by (nonlinear_arith)
            requires
                0 <= sum,
                n > 0,
        ;
    }
    Some((sum / s.len() as u128) as u64)
}

/// `resource-healthcheck-overhead`.
pub struct HealthcheckOverhead {
    pub home: Home,
}

impl HealthcheckOverhead {
    pub fn new() -> (r: HealthcheckOverhead)
        ensures
            r.home.path is None,
    {
        HealthcheckOverhead { home: Home::new() }
    }

    pub fn name(&self) -> (r: &'static str)
        ensures
            r@ == "resource-healthcheck-overhead"@,
    {
        "resource-healthcheck-overhead"
    }

    fn options(&self) -> (r: BoxSpec)
        ensures
            r@ == (BoxSpecView {
                health_check: Some(
                    HealthCheck {
                        interval_ms: 500,
                        timeout_ms: 200,
                        retries: 3,
                        start_period_ms: 1000,
                    },
                ),
                ..alpine()
            }),
    {
        let mut spec = alpine_options();
        spec.health_check = Some(
            HealthCheck {
                interval_ms: HEALTHCHECK_INTERVAL_MS,
                timeout_ms: 200,
                retries: 3,
                start_period_ms: 1000,
            },
        );
        spec
    }

    /// The steps of an iteration.
    pub fn script(&self) -> (r: Script)
        ensures
            r@ == seq![
                StepView::Create(
                    BoxSpecView {
                        health_check: Some(
                            HealthCheck {
                                interval_ms: 500,
                                timeout_ms: 200,
                                retries: 3,
                                start_period_ms: 1000,
                            },
                        ),
                        ..alpine()
                    },
                ),
                StepView::Start,
                StepView::Settle(3000),
                StepView::Sample(10, 1000),
                StepView::Stop,
            ],
            one_box(r@),
    {
        let r = Script::new().then_run(self.options()).then_do(Step::Settle { ms: 3000 }).then_do(
            Step::Sample { secs: 10, interval_ms: 1000 },
        ).then_do(Step::Stop);
        assert(creates_at(r@, 0));
        r
    }

    /// The metrics of an iteration, given the samples of the memory and of the processor.
    pub fn metrics(&self, rss: &Vec<u64>, cpu: &Vec<Single>) -> (r: Metrics)
        ensures
            r@ == with_some(
                with_some(
                    with_some(
                        with_some(
                            none().insert("healthcheck_interval_ms"@, Double::integer(500)).insert(
                                "healthcheck_samples_count"@,
                                Double::integer(rss@.len() as int),
                            ),
                            "healthcheck_rss_max_bytes"@,
                            whole(largest(rss@)),
                        ),
                        "healthcheck_rss_mean_bytes"@,
                        whole(whole_mean(rss@)),
                    ),
                    "healthcheck_cpu_pct_max"@,
                    second(single_stats(cpu@)),
                ),
                "healthcheck_cpu_pct_mean"@,
                first(single_stats(cpu@)),
            ),
    {
        let stats = mean_and_max(cpu);
        let m = NameMap::new().with(
            "healthcheck_interval_ms",
            Double::from_u64(HEALTHCHECK_INTERVAL_MS),
        ).with("healthcheck_samples_count", count(rss.len()));
        let m = add_some(m, "healthcheck_rss_max_bytes", max_number(rss));
        let m = add_some(m, "healthcheck_rss_mean_bytes", number_of(mean_whole(rss)));
        let m = add_some(m, "healthcheck_cpu_pct_max", get_second(stats));
        add_some(m, "healthcheck_cpu_pct_mean", get_first(stats))
    }
}

/// The mean of integers is the largest whole number that, taken once for each of them, does not
/// exceed their sum. Each of them counts once in the sum, wherever it stands.
pub proof fn law_whole_mean_is_rounded_down(s: Seq<u64>, x: u64)
    ensures
        whole_mean(s) is None <==> s.len() == 0,
        whole_mean(s) matches Some(m) ==> m * s.len() <= sum_of(s) < (m + 1) * s.len(),
        sum_of(s.push(x)) == sum_of(s) + x,
        sum_of(seq![x] + s) == sum_of(s) + x,
        sum_of(Seq::empty()) == 0,
    decreases s.len(),
{
    let n = s.len() as int;
    lemma_sum_bound(s);
    assert(s.push(x).drop_last() =~= s);
    let longer = seq![x] + s;
    if n > 0 {
        let t = sum_of(s);
        let m = t / n;
        lemma_fundamental_div_mod(t, n);
        assert(0 <= m <= u64::MAX) by (nonlinear_arith)
            requires
                t == n * m + t % n,
                0 <= t % n < n,
                0 <= t <= n * u64::MAX,
                n > 0,
        ;
        assert(m * n <= t && t < (m + 1) * n) by (nonlinear_arith)
            requires
                t == n * m + t % n,
                0 <= t % n < n,
        ;
        law_whole_mean_is_rounded_down(s.drop_last(), x);
        assert(longer.drop_last() =~= seq![x] + s.drop_last());
        assert(longer.last() == s.last());
    } else {
        assert(longer.drop_last() =~= Seq::<u64>::empty());
        assert(longer.last() == x);
        assert(sum_of(longer.drop_last()) == 0);
    }
}

} // verus!
