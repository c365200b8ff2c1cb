//! Whether an idle box grows over time.
//!
//! A box is kept alive for a while and sampled at intervals. What it grew by from the first
//! sample to the last is what it leaks.

use crate::bench::clock::Span;
use crate::bench::scenarios::common::{
    add_some, alpine, alpine_options, first_to_last, known_difference, known_growth, largest,
    max_number, none, total_growth, whole, with_some, Home, Metrics,
};
use crate::bench::scenarios::script::{creates_at, one_box, Script, Step, StepView};
use crate::names::NameMap;
use crate::parts::law_numbers_are_read_back;
use crate::render::decimal;
use crate::text::is_digit;
use crate::text::{chars_of, parse_u64, parsed_u64};
use vstd::prelude::*;

verus! {

/// How long a box is kept alive, in seconds, unless it is said otherwise.
pub const DEFAULT_SOAK_SECS: u64 = 30;

/// The environment variable that says otherwise.
pub const SOAK_VARIABLE: &'static str = "BOXLITE_BENCH_SOAK_SECS";

/// The number of seconds that a setting asks for. A setting that is missing, not a number, or
/// zero counts for nothing.
pub open spec fn soak_secs(setting: Option<Seq<char>>) -> int {
    match setting {
        Some(text) => match parsed_u64(text) {
            Some(n) => if n >= 1 {
                n
            } else {
                30
            },
            None => 30,
        },
        None => 30,
    }
}

/// How long a box is kept alive, given the value of the environment variable.
pub fn configured_soak_secs(setting: Option<&str>) -> (r: u64)
    ensures
        r == soak_secs(
            match setting {
                Some(text) => Some(text@),
                None => None,
            },
        ),
        r >= 1,
{
    match setting {
        Some(text) => {
            let v = chars_of(text);
            match parse_u64(&v) {
                Some(n) => if n >= 1 {
                    n
                } else {
                    DEFAULT_SOAK_SECS
                },
                None => DEFAULT_SOAK_SECS,
            }
        },
        None => DEFAULT_SOAK_SECS,
    }
}

/// `stability-soak`.
pub struct Soak {
    pub home: Home,
}

impl Soak {
    pub fn new() -> (r: Soak)
        ensures
            r.home.path is None,
    {
        Soak { home: Home::new() }
    }

    pub fn name(&self) -> (r: &'static str)
        ensures
            r@ == "stability-soak"@,
    {
        "stability-soak"
    }

    /// The steps of an iteration.
    pub fn script(&self, secs: u64) -> (r: Script)
        ensures
            r@ == seq![
                StepView::Create(alpine()),
                StepView::Start,
                StepView::Soak(secs, 2000),
                StepView::Stop,
            ],
            one_box(r@),
    {
        let r = Script::new().then_run(alpine_options()).then_do(
            Step::Soak { secs, interval_ms: 2000 },
        ).then_do(Step::Stop);
        assert(creates_at(r@, 0));
        r
    }

    /// The metrics of an iteration: how long the soak lasted, the samples of the memory and of
    /// the disk, and the open files of the host before and after.
    pub fn metrics(
        &self,
        elapsed: Span,
        rss: &Vec<u64>,
        cow: &Vec<u64>,
        files_before: Option<u64>,
        files_after: Option<u64>,
    ) -> (r: Metrics)
        ensures
            r@ == with_some(
                with_some(
                    with_some(
                        with_some(
                            none().insert("soak_secs"@, elapsed.seconds()),
                            "rss_growth_bytes"@,
                            total_growth(rss@),
                        ),
                        "rss_max_bytes"@,
                        whole(largest(rss@)),
                    ),
                    "cow_growth_bytes"@,
                    total_growth(cow@),
                ),
                "fd_growth_count"@,
                known_growth(files_before, files_after),
            ),
    {
        let m = NameMap::new().with("soak_secs", elapsed.as_secs());
        let m = add_some(m, "rss_growth_bytes", first_to_last(rss));
        let m = add_some(m, "rss_max_bytes", max_number(rss));
        let m = add_some(m, "cow_growth_bytes", first_to_last(cow));
        add_some(m, "fd_growth_count", known_difference(files_before, files_after))
    }
}

/// A setting that is a number of at least one is followed, and anything else leaves it at half a
/// minute: none, zero, a number that is too large, and a text with something other than digits.
pub proof fn law_settings_are_followed(n: nat, text: Seq<char>)
    ensures
        1 <= n <= u64::MAX ==> soak_secs(Some(decimal(n))) == n,
        n == 0 || n > u64::MAX ==> soak_secs(Some(decimal(n))) == 30,
        (exists|i: int| 1 <= i < text.len() && !is_digit(#[trigger] text[i])) ==> soak_secs(
            Some(text),
        ) == 30,
        soak_secs(Some(Seq::empty())) == 30,
        soak_secs(None) == 30,
{
    law_numbers_are_read_back(n, text);
    law_numbers_are_read_back(n, Seq::empty());
}

} // verus!
