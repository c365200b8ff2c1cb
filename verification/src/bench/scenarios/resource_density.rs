//! What many idle boxes cost together.

use crate::bench::scenarios::common::{
    add_some, alpine, alpine_options, known_difference, known_growth, none, with_some, BoxSpec,
    Home, Metrics,
};
use crate::bench::scenarios::plan::{Act, ActView, Plan};
use crate::names::NameMap;
use crate::number::double::Double;
use vstd::prelude::*;

verus! {

/// How many boxes an iteration starts.
pub const IDLE_BOXES: usize = 10;

/// How long they are left alone before they are looked at, in milliseconds.
pub const SETTLE_MS: u64 = 3000;

/// The sum of the numbers that are known.
pub open spec fn known_sum(s: Seq<Option<u64>>) -> int
    decreases s.len(),
{
    if s.len() == 0 {
        0
    } else {
        known_sum(s.drop_last()) + match s.last() {
            Some(x) => x as int,
            None => 0,
        }
    }
}

/// How many of the numbers are known.
pub open spec fn known_count(s: Seq<Option<u64>>) -> int
    decreases s.len(),
{
    if s.len() == 0 {
        0
    } else {
        known_count(s.drop_last()) + match s.last() {
            Some(_) => 1int,
            None => 0,
        }
    }
}

proof fn lemma_known_sum_not_negative(s: Seq<Option<u64>>)
    ensures
        known_sum(s) >= 0,
    decreases s.len(),
{
    if s.len() > 0 {
        lemma_known_sum_not_negative(s.drop_last());
    }
}

proof fn lemma_known_sum_grows(s: Seq<Option<u64>>, n: int)
    requires
        0 <= n <= s.len(),
    ensures
        0 <= known_sum(s.take(n)) <= known_sum(s),
    decreases s.len() - n,
{
    lemma_known_sum_not_negative(s.take(n));
    if n < s.len() {
        lemma_known_sum_grows(s, n + 1);
        assert(s.take(n + 1).drop_last() == s.take(n));
    } else {
        assert(s.take(n) == s);
    }
}

/// The sum of the numbers that are known, and how many they are.
pub fn sum_known(s: &Vec<Option<u64>>) -> (r: (u64, usize))
    requires
        known_sum(s@) <= u64::MAX,
    ensures
        r.0 == known_sum(s@),
        r.1 == known_count(s@),
{
    let mut sum: u64 = 0;
    let mut n: usize = 0;
    let mut i: usize = 0;
    assert(s@.take(0) == Seq::<Option<u64>>::empty());
    while i < s.len()
        invariant
            i <= s.len(),
            n <= i,
            known_sum(s@) <= u64::MAX,
            sum == known_sum(s@.take(i as int)),
            n == known_count(s@.take(i as int)),
        decreases s.len() - i,
    {
        assert(s@.take(i + 1).drop_last() == s@.take(i as int));
        proof {
            lemma_known_sum_grows(s@, i + 1);
        }
        if let Some(x) = s[i] {
            sum = sum + x;
            n = n + 1;
        }
        i = i + 1;
    }
    assert(s@.take(s.len() as int) == s@);
    (sum, n)
}

/// `resource-density-10-idle`.
pub struct DensityIdle {
    pub home: Home,
}

impl DensityIdle {
    pub fn new() -> (r: DensityIdle)
        ensures
            r.home.path is None,
    {
        DensityIdle { home: Home::new() }
    }

    pub fn name(&self) -> (r: &'static str)
        ensures
            r@ == "resource-density-10-idle"@,
    {
        "resource-density-10-idle"
    }

    /// Each of the boxes.
    pub fn options(&self) -> (r: BoxSpec)
        ensures
            r@ == alpine(),
    {
        alpine_options()
    }

    /// The acts of an iteration.
    pub fn plan(&self) -> (r: Plan)
        ensures
            r@ == seq![
                ActView::CountFiles,
                ActView::Populate(10, alpine(), true, true),
                ActView::Settle(3000),
                ActView::Measure,
                ActView::CountFiles,
                ActView::Release,
            ],
    {
        Plan::new().then_do(Act::CountFiles).then_do(
            Act::Populate { count: IDLE_BOXES, spec: self.options(), start: true, guard: true },
        ).then_do(Act::Settle { ms: SETTLE_MS }).then_do(Act::Measure).then_do(
            Act::CountFiles,
        ).then_do(Act::Release)
    }

    /// The metrics of an iteration: the memory and the disk that each box uses, as far as they
    /// are known, and the open files of the host before and after.
    pub fn metrics(
        &self,
        rss: &Vec<Option<u64>>,
        cow: &Vec<Option<u64>>,
        files_before: Option<u64>,
        files_after: Option<u64>,
    ) -> (r: Metrics)
        requires
            known_sum(rss@) <= u64::MAX,
            known_sum(cow@) <= u64::MAX,
        ensures
            ({
                let total = Double::integer(known_sum(rss@));
                let known = known_count(rss@) > 0;
                r@ == with_some(
                    with_some(
                        with_some(
                            with_some(
                                none().insert("density_box_count"@, Double::integer(10)),
                                "density_total_rss_bytes"@,
                                if known {
                                    Some(total)
                                } else {
                                    None
                                },
                            ),
                            "density_per_box_rss_mean_bytes"@,
                            if known {
                                Some(total.over(Double::integer(10)))
                            } else {
                                None
                            },
                        ),
                        "density_total_cow_bytes"@,
                        if known_sum(cow@) > 0 {
                            Some(Double::integer(known_sum(cow@)))
                        } else {
                            None
                        },
                    ),
                    "density_host_fd_delta_count"@,
                    known_growth(files_before, files_after),
                )
            }),
    {
        let (memory, known): (u64, usize) = sum_known(rss);
        let (disk, _): (u64, usize) = sum_known(cow);
        let total: Double = Double::from_u64(memory);
        let n: Double = Double::from_u64(10);
        let m = NameMap::new().with("density_box_count", n);
        let m = if known > 0 {
            m.with("density_total_rss_bytes", total).with(
                "density_per_box_rss_mean_bytes",
                total.div(n),
            )
        } else {
            m
        };
        let m = if disk > 0 {
            m.with("density_total_cow_bytes", Double::from_u64(disk))
        } else {
            m
        };
        add_some(m, "density_host_fd_delta_count", known_difference(files_before, files_after))
    }
}

/// A number that is known adds itself to the sum and one to the count; one that is not known adds
/// nothing to either.
pub proof fn law_known_numbers_are_summed(s: Seq<Option<u64>>, x: u64)
    ensures
        known_sum(s.push(Some(x))) == known_sum(s) + x,
        known_count(s.push(Some(x))) == known_count(s) + 1,
        known_sum(s.push(None)) == known_sum(s),
        known_count(s.push(None)) == known_count(s),
        known_sum(Seq::empty()) == 0,
        known_count(Seq::empty()) == 0,
{
    assert(s.push(Some(x)).drop_last() =~= s);
    assert(s.push(None).drop_last() =~= s);
}

} // verus!
