//! The report that a benchmark run produces.
//!
//! A report holds the raw samples of a run and, for each metric, the aggregate over the samples
//! that count. Reports are compared by their aggregates alone; the samples are kept for anyone
//! who wants other statistics.

use crate::bench::host_info::HostInfo;
use crate::names::NameMap;
use crate::number::double::Double;
use crate::text::{ends, ends_with};
use vstd::prelude::*;

verus! {

/// The version of the report format. Its first component changes with every change that would
/// make readers misunderstand a report.
pub const SCHEMA_VERSION: &'static str = "1.0";

/// One report, made by one benchmark run.
#[derive(Debug)]
pub struct BenchReport {
    pub schema_version: String,
    pub scenario: String,
    pub metadata: ReportMetadata,
    /// How many samples count towards the aggregates.
    pub sample_count: usize,
    /// How many warmup samples were collected and left out of the aggregates.
    pub warmup_count: usize,
    /// All samples, in the order in which they were collected.
    pub samples: Vec<Sample>,
    pub aggregates: Vec<MetricAggregate>,
}

/// One iteration of a scenario.
#[derive(Debug)]
pub struct Sample {
    /// The number of the iteration within its run, counted from 1.
    pub iteration: usize,
    /// Whether the iteration is left out of the aggregates.
    pub warmup: bool,
    /// How long the iteration took, in milliseconds.
    pub wall_ms: Double,
    pub metrics: NameMap<Double>,
}

/// The statistics of one metric over the samples that count.
#[derive(Debug)]
pub struct MetricAggregate {
    pub name: String,
    pub unit: String,
    /// Whether larger values are better, as they are for throughput.
    pub higher_is_better: bool,
    pub min: Double,
    pub p50: Double,
    pub p90: Double,
    pub p99: Double,
    pub max: Double,
    pub mean: Double,
    /// The standard deviation of the sample, with denominator `n - 1`; zero where `n` is 1.
    pub stdev: Double,
    pub n: usize,
}

/// What is recorded about the circumstances of a run.
#[derive(Debug)]
pub struct ReportMetadata {
    /// When the run started, in RFC 3339 format.
    pub started_at: String,
    pub label: Option<String>,
    pub git_commit: String,
    pub boxlite_version: String,
    pub host: HostInfo,
}

/// The unit that the suffix of a metric's name stands for.
pub open spec fn unit_of(name: Seq<char>) -> Seq<char> {
    if ends(name, "_ms"@) {
        "ms"@
    } else if ends(name, "_secs"@) {
        "secs"@
    } else if ends(name, "_bytes"@) {
        "bytes"@
    } else if ends(name, "_pct"@) {
        "pct"@
    } else if ends(name, "_count"@) {
        "count"@
    } else if ends(name, "_per_sec"@) {
        "per_sec"@
    } else if ends(name, "_rps"@) {
        "rps"@
    } else {
        "?"@
    }
}

/// Whether a metric's name marks it as throughput.
pub open spec fn is_throughput(name: Seq<char>) -> bool {
    ends(name, "_rps"@) || ends(name, "_per_sec"@)
}

impl BenchReport {
    /// A report without samples.
    pub fn new(scenario: String, metadata: ReportMetadata) -> (r: BenchReport)
        ensures
            r.schema_version@ == SCHEMA_VERSION@,
            r.scenario == scenario,
            r.metadata == metadata,
            r.sample_count == 0,
            r.warmup_count == 0,
            r.samples@.len() == 0,
            r.aggregates@.len() == 0,
    {
        BenchReport {
            schema_version: SCHEMA_VERSION.to_owned(),
            scenario,
            metadata,
            sample_count: 0,
            warmup_count: 0,
            samples: Vec::new(),
            aggregates: Vec::new(),
        }
    }

    /// The unit that the suffix of a metric's name stands for.
    pub fn unit_hint(metric_name: &str) -> (r: &'static str)
        ensures
            r@ == unit_of(metric_name@),
    {
        if ends_with(metric_name, "_ms") {
            "ms"
        } else if ends_with(metric_name, "_secs") {
            "secs"
        } else if ends_with(metric_name, "_bytes") {
            "bytes"
        } else if ends_with(metric_name, "_pct") {
            "pct"
        } else if ends_with(metric_name, "_count") {
            "count"
        } else if ends_with(metric_name, "_per_sec") {
            "per_sec"
        } else if ends_with(metric_name, "_rps") {
            "rps"
        } else {
            "?"
        }
    }

    /// Whether larger values of a metric are better: those of throughput are, those of latencies
    /// and costs, and of metrics without a known suffix, are not.
    pub fn higher_is_better(metric_name: &str) -> (r: bool)
        ensures
            r == is_throughput(metric_name@),
    {
        ends_with(metric_name, "_rps") || ends_with(metric_name, "_per_sec")
    }
}

proof fn lemma_suffixes_clash(name: Seq<char>, a: Seq<char>, b: Seq<char>)
    requires
        ends(name, a),
        ends(name, b),
        a.len() > 0,
        b.len() > 0,
    ensures
        a.last() == b.last(),
        a.len() > 1 && b.len() > 1 ==> a[a.len() - 2] == b[b.len() - 2],
{
    assert(name.skip(name.len() - a.len())[a.len() - 1] == name.last());
    assert(name.skip(name.len() - b.len())[b.len() - 1] == name.last());
    if a.len() > 1 && b.len() > 1 {
        assert(name.skip(name.len() - a.len())[a.len() - 2] == name[name.len() - 2]);
        assert(name.skip(name.len() - b.len())[b.len() - 2] == name[name.len() - 2]);
    }
}

/// A metric counts as throughput exactly when its unit is `rps` or `per_sec`: every other unit,
/// the unknown one among them, is that of a cost.
pub proof fn law_direction_follows_unit(name: Seq<char>)
    ensures
        is_throughput(name) <==> (unit_of(name) == "rps"@ || unit_of(name) == "per_sec"@),
{
    reveal_strlit("_ms");
    reveal_strlit("_secs");
    reveal_strlit("_bytes");
    reveal_strlit("_pct");
    reveal_strlit("_count");
    reveal_strlit("_per_sec");
    reveal_strlit("_rps");
    reveal_strlit("ms");
    reveal_strlit("secs");
    reveal_strlit("bytes");
    reveal_strlit("pct");
    reveal_strlit("count");
    reveal_strlit("per_sec");
    reveal_strlit("rps");
    reveal_strlit("?");
    if is_throughput(name) {
        let t = if ends(name, "_rps"@) {
            "_rps"@
        } else {
            "_per_sec"@
        };
        if ends(name, "_ms"@) {
            lemma_suffixes_clash(name, t, "_ms"@);
        }
        if ends(name, "_secs"@) {
            lemma_suffixes_clash(name, t, "_secs"@);
        }
        if ends(name, "_bytes"@) {
            lemma_suffixes_clash(name, t, "_bytes"@);
        }
        if ends(name, "_pct"@) {
            lemma_suffixes_clash(name, t, "_pct"@);
        }
        if ends(name, "_count"@) {
            lemma_suffixes_clash(name, t, "_count"@);
        }
    }
    assert("ms"@.len() == 2 && "secs"@.len() == 4 && "bytes"@.len() == 5);
    assert("rps"@.len() == 3 && "per_sec"@.len() == 7 && "?"@.len() == 1);
    assert("pct"@[1] != "rps"@[1]);
}

/// A name that ends with an underscore and a unit has that unit, whatever stands in front of it, and
/// a name without such an end has none. Requests and events per second are better when there are
/// more of them; everything else is better when there is less of it.
pub proof fn law_suffix_is_the_unit(stem: Seq<char>, name: Seq<char>)
    ensures
        unit_of(stem + "_ms"@) == "ms"@,
        unit_of(stem + "_secs"@) == "secs"@,
        unit_of(stem + "_bytes"@) == "bytes"@,
        unit_of(stem + "_pct"@) == "pct"@,
        unit_of(stem + "_count"@) == "count"@,
        unit_of(stem + "_per_sec"@) == "per_sec"@,
        unit_of(stem + "_rps"@) == "rps"@,
        !is_throughput(stem + "_ms"@),
        !is_throughput(stem + "_secs"@),
        !is_throughput(stem + "_bytes"@),
        !is_throughput(stem + "_pct"@),
        !is_throughput(stem + "_count"@),
        is_throughput(stem + "_per_sec"@),
        is_throughput(stem + "_rps"@),
        !ends(name, "_ms"@) && !ends(name, "_secs"@) && !ends(name, "_bytes"@) && !ends(name, "_pct"@) && !ends(name, "_count"@) && !ends(name, "_per_sec"@) && !ends(name, "_rps"@) ==> unit_of(name) == "?"@ && !is_throughput(name),
{
    reveal_strlit("_ms");
    reveal_strlit("_secs");
    reveal_strlit("_bytes");
    reveal_strlit("_pct");
    reveal_strlit("_count");
    reveal_strlit("_per_sec");
    reveal_strlit("_rps");
    lemma_ends_with(stem, "_ms"@);
    lemma_ends_with(stem, "_secs"@);
    lemma_ends_with(stem, "_bytes"@);
    lemma_ends_with(stem, "_pct"@);
    lemma_ends_with(stem, "_count"@);
    lemma_ends_with(stem, "_per_sec"@);
    lemma_ends_with(stem, "_rps"@);
    if ends(stem + "_ms"@, "_secs"@) {
        lemma_suffixes_clash(stem + "_ms"@, "_ms"@, "_secs"@);
    }
    if ends(stem + "_ms"@, "_bytes"@) {
        lemma_suffixes_clash(stem + "_ms"@, "_ms"@, "_bytes"@);
    }
    if ends(stem + "_ms"@, "_pct"@) {
        lemma_suffixes_clash(stem + "_ms"@, "_ms"@, "_pct"@);
    }
    if ends(stem + "_ms"@, "_count"@) {
        lemma_suffixes_clash(stem + "_ms"@, "_ms"@, "_count"@);
    }
    if ends(stem + "_ms"@, "_per_sec"@) {
        lemma_suffixes_clash(stem + "_ms"@, "_ms"@, "_per_sec"@);
    }
    if ends(stem + "_ms"@, "_rps"@) {
        lemma_suffixes_clash(stem + "_ms"@, "_ms"@, "_rps"@);
    }
    if ends(stem + "_secs"@, "_ms"@) {
        lemma_suffixes_clash(stem + "_secs"@, "_secs"@, "_ms"@);
    }
    if ends(stem + "_secs"@, "_bytes"@) {
        lemma_suffixes_clash(stem + "_secs"@, "_secs"@, "_bytes"@);
    }
    if ends(stem + "_secs"@, "_pct"@) {
        lemma_suffixes_clash(stem + "_secs"@, "_secs"@, "_pct"@);
    }
    if ends(stem + "_secs"@, "_count"@) {
        lemma_suffixes_clash(stem + "_secs"@, "_secs"@, "_count"@);
    }
    if ends(stem + "_secs"@, "_per_sec"@) {
        lemma_suffixes_clash(stem + "_secs"@, "_secs"@, "_per_sec"@);
    }
    if ends(stem + "_secs"@, "_rps"@) {
        lemma_suffixes_clash(stem + "_secs"@, "_secs"@, "_rps"@);
    }
    if ends(stem + "_bytes"@, "_ms"@) {
        lemma_suffixes_clash(stem + "_bytes"@, "_bytes"@, "_ms"@);
    }
    if ends(stem + "_bytes"@, "_secs"@) {
        lemma_suffixes_clash(stem + "_bytes"@, "_bytes"@, "_secs"@);
    }
    if ends(stem + "_bytes"@, "_pct"@) {
        lemma_suffixes_clash(stem + "_bytes"@, "_bytes"@, "_pct"@);
    }
    if ends(stem + "_bytes"@, "_count"@) {
        lemma_suffixes_clash(stem + "_bytes"@, "_bytes"@, "_count"@);
    }
    if ends(stem + "_bytes"@, "_per_sec"@) {
        lemma_suffixes_clash(stem + "_bytes"@, "_bytes"@, "_per_sec"@);
    }
    if ends(stem + "_bytes"@, "_rps"@) {
        lemma_suffixes_clash(stem + "_bytes"@, "_bytes"@, "_rps"@);
    }
    if ends(stem + "_pct"@, "_ms"@) {
        lemma_suffixes_clash(stem + "_pct"@, "_pct"@, "_ms"@);
    }
    if ends(stem + "_pct"@, "_secs"@) {
        lemma_suffixes_clash(stem + "_pct"@, "_pct"@, "_secs"@);
    }
    if ends(stem + "_pct"@, "_bytes"@) {
        lemma_suffixes_clash(stem + "_pct"@, "_pct"@, "_bytes"@);
    }
    if ends(stem + "_pct"@, "_count"@) {
        lemma_suffixes_clash(stem + "_pct"@, "_pct"@, "_count"@);
    }
    if ends(stem + "_pct"@, "_per_sec"@) {
        lemma_suffixes_clash(stem + "_pct"@, "_pct"@, "_per_sec"@);
    }
    if ends(stem + "_pct"@, "_rps"@) {
        lemma_suffixes_clash(stem + "_pct"@, "_pct"@, "_rps"@);
    }
    if ends(stem + "_count"@, "_ms"@) {
        lemma_suffixes_clash(stem + "_count"@, "_count"@, "_ms"@);
    }
    if ends(stem + "_count"@, "_secs"@) {
        lemma_suffixes_clash(stem + "_count"@, "_count"@, "_secs"@);
    }
    if ends(stem + "_count"@, "_bytes"@) {
        lemma_suffixes_clash(stem + "_count"@, "_count"@, "_bytes"@);
    }
    if ends(stem + "_count"@, "_pct"@) {
        lemma_suffixes_clash(stem + "_count"@, "_count"@, "_pct"@);
    }
    if ends(stem + "_count"@, "_per_sec"@) {
        lemma_suffixes_clash(stem + "_count"@, "_count"@, "_per_sec"@);
    }
    if ends(stem + "_count"@, "_rps"@) {
        lemma_suffixes_clash(stem + "_count"@, "_count"@, "_rps"@);
    }
    if ends(stem + "_per_sec"@, "_ms"@) {
        lemma_suffixes_clash(stem + "_per_sec"@, "_per_sec"@, "_ms"@);
    }
    if ends(stem + "_per_sec"@, "_secs"@) {
        lemma_suffixes_clash(stem + "_per_sec"@, "_per_sec"@, "_secs"@);
    }
    if ends(stem + "_per_sec"@, "_bytes"@) {
        lemma_suffixes_clash(stem + "_per_sec"@, "_per_sec"@, "_bytes"@);
    }
    if ends(stem + "_per_sec"@, "_pct"@) {
        lemma_suffixes_clash(stem + "_per_sec"@, "_per_sec"@, "_pct"@);
    }
    if ends(stem + "_per_sec"@, "_count"@) {
        lemma_suffixes_clash(stem + "_per_sec"@, "_per_sec"@, "_count"@);
    }
    if ends(stem + "_per_sec"@, "_rps"@) {
        lemma_suffixes_clash(stem + "_per_sec"@, "_per_sec"@, "_rps"@);
    }
    if ends(stem + "_rps"@, "_ms"@) {
        lemma_suffixes_clash(stem + "_rps"@, "_rps"@, "_ms"@);
    }
    if ends(stem + "_rps"@, "_secs"@) {
        lemma_suffixes_clash(stem + "_rps"@, "_rps"@, "_secs"@);
    }
    if ends(stem + "_rps"@, "_bytes"@) {
        lemma_suffixes_clash(stem + "_rps"@, "_rps"@, "_bytes"@);
    }
    if ends(stem + "_rps"@, "_pct"@) {
        lemma_suffixes_clash(stem + "_rps"@, "_rps"@, "_pct"@);
    }
    if ends(stem + "_rps"@, "_count"@) {
        lemma_suffixes_clash(stem + "_rps"@, "_rps"@, "_count"@);
    }
    if ends(stem + "_rps"@, "_per_sec"@) {
        lemma_suffixes_clash(stem + "_rps"@, "_rps"@, "_per_sec"@);
    }
}

proof fn lemma_ends_with(stem: Seq<char>, suffix: Seq<char>)
    ensures
        ends(stem + suffix, suffix),
{
    let s = stem + suffix;
    assert(s.skip(s.len() - suffix.len()) =~= suffix);
}

} // verus!
