//! What `fio` reports: the JSON document that it prints with `--output-format=json`.
//!
//! A report without one of the expected values is refused. A value that `fio` no longer prints
//! under its name must not look like a zero.

use crate::bench::scenarios::common::{none, Metrics};
use crate::json::{document, parse, Json, JsonView};
use crate::names::NameMap;
use crate::number::double::Double;
use vstd::prelude::*;

verus! {

/// Why a report is refused. The values are looked for in this order.
#[derive(Clone, Copy, Debug, PartialEq, Eq, Structural)]
pub enum FioError {
    NotJson,
    NoJob,
    NoSide,
    NoIops,
    NoBandwidth,
    NoPercentiles,
    NoP50,
    NoP99,
    NoP999,
}

/// The values of one side, reading or writing, of a job.
#[derive(Clone, Copy, Debug, PartialEq, Eq, Structural)]
pub struct FioValues {
    pub iops: Double,
    /// The bandwidth in kilobytes per second.
    pub bandwidth: Double,
    /// Percentiles of the completion latency in nanoseconds.
    pub p50: Double,
    pub p99: Double,
    pub p999: Double,
}

/// The percentiles of the completion latency.
pub open spec fn percentiles_of(side: JsonView) -> Option<JsonView> {
    match side.member("clat_ns"@) {
        Some(clat) => clat.member("percentile"@),
        None => None,
    }
}

/// The values of a side.
pub open spec fn side_values(side: JsonView) -> Result<FioValues, FioError> {
    match (side.number_at("iops"@), side.number_at("bw"@), percentiles_of(side)) {
        (None, _, _) => Err(FioError::NoIops),
        (_, None, _) => Err(FioError::NoBandwidth),
        (_, _, None) => Err(FioError::NoPercentiles),
        (Some(iops), Some(bandwidth), Some(clat)) => match (
            clat.number_at("50.000000"@),
            clat.number_at("99.000000"@),
            clat.number_at("99.900000"@),
        ) {
            (None, _, _) => Err(FioError::NoP50),
            (_, None, _) => Err(FioError::NoP99),
            (_, _, None) => Err(FioError::NoP999),
            (Some(p50), Some(p99), Some(p999)) => Ok(
                FioValues { iops, bandwidth, p50, p99, p999 },
            ),
        },
    }
}

/// The values of the side `name` of the first job of a report.
pub open spec fn job_values(root: JsonView, name: Seq<char>) -> Result<FioValues, FioError> {
    match root.first_of("jobs"@) {
        None => Err(FioError::NoJob),
        Some(job) => match job.member(name) {
            None => Err(FioError::NoSide),
            Some(side) => side_values(side),
        },
    }
}

fn read_side(side: &Json) -> (r: Result<FioValues, FioError>)
    ensures
        r == side_values(side@),
{
    let iops: Double = match side.number("iops") {
        Some(x) => x,
        None => {
            return Err(FioError::NoIops);
        },
    };
    let bandwidth: Double = match side.number("bw") {
        Some(x) => x,
        None => {
            return Err(FioError::NoBandwidth);
        },
    };
    let clat = match side.get("clat_ns") {
        Some(clat) => clat.get("percentile"),
        None => None,
    };
    let clat = match clat {
        Some(clat) => clat,
        None => {
            return Err(FioError::NoPercentiles);
        },
    };
    let p50: Double = match clat.number("50.000000") {
        Some(x) => x,
        None => {
            return Err(FioError::NoP50);
        },
    };
    let p99: Double = match clat.number("99.000000") {
        Some(x) => x,
        None => {
            return Err(FioError::NoP99);
        },
    };
    match clat.number("99.900000") {
        Some(p999) => Ok(FioValues { iops, bandwidth, p50, p99, p999 }),
        None => Err(FioError::NoP999),
    }
}

/// The values of the side `name` of the first job of a report.
pub fn read_job(root: &Json, name: &str) -> (r: Result<FioValues, FioError>)
    ensures
        r == job_values(root@, name@),
{
    match root.first("jobs") {
        None => Err(FioError::NoJob),
        Some(job) => match job.get(name) {
            None => Err(FioError::NoSide),
            Some(side) => read_side(side),
        },
    }
}

/// The metrics of a random-write job.
pub open spec fn write_metrics(v: FioValues) -> Map<Seq<char>, Double> {
    none().insert("disk_fio_iops_per_sec"@, v.iops).insert(
        "disk_fio_bw_kb_per_sec"@,
        v.bandwidth,
    ).insert("disk_fio_clat_p50_ns"@, v.p50).insert("disk_fio_clat_p99_ns"@, v.p99).insert(
        "disk_fio_clat_p999_ns"@,
        v.p999,
    )
}

/// The metrics of a random-read job.
pub open spec fn read_metrics(v: FioValues) -> Map<Seq<char>, Double> {
    none().insert("disk_read_fio_iops_per_sec"@, v.iops).insert(
        "disk_read_fio_bw_kb_per_sec"@,
        v.bandwidth,
    ).insert("disk_read_fio_clat_p50_ns"@, v.p50).insert("disk_read_fio_clat_p99_ns"@, v.p99).insert(
        "disk_read_fio_clat_p999_ns"@,
        v.p999,
    )
}

/// The metrics in the report of a random-write job.
pub fn fio_write_report(root: &Json) -> (r: Result<Metrics, FioError>)
    ensures
        match r {
            Ok(m) => {
                &&& job_values(root@, "write"@) matches Ok(v)
                &&& m@ == write_metrics(v)
            },
            Err(e) => job_values(root@, "write"@) == Err::<FioValues, FioError>(e),
        },
{
    match read_job(root, "write") {
        Ok(v) => Ok(
            NameMap::new().with("disk_fio_iops_per_sec", v.iops).with(
                "disk_fio_bw_kb_per_sec",
                v.bandwidth,
            ).with("disk_fio_clat_p50_ns", v.p50).with("disk_fio_clat_p99_ns", v.p99).with(
                "disk_fio_clat_p999_ns",
                v.p999,
            ),
        ),
        Err(e) => Err(e),
    }
}

/// The metrics in the report of a random-read job.
pub fn fio_read_report(root: &Json) -> (r: Result<Metrics, FioError>)
    ensures
        match r {
            Ok(m) => {
                &&& job_values(root@, "read"@) matches Ok(v)
                &&& m@ == read_metrics(v)
            },
            Err(e) => job_values(root@, "read"@) == Err::<FioValues, FioError>(e),
        },
{
    match read_job(root, "read") {
        Ok(v) => Ok(
            NameMap::new().with("disk_read_fio_iops_per_sec", v.iops).with(
                "disk_read_fio_bw_kb_per_sec",
                v.bandwidth,
            ).with("disk_read_fio_clat_p50_ns", v.p50).with(
                "disk_read_fio_clat_p99_ns",
                v.p99,
            ).with("disk_read_fio_clat_p999_ns", v.p999),
        ),
        Err(e) => Err(e),
    }
}

/// The metrics in what a random-write job printed.
pub fn parse_fio_json(text: &str) -> (r: Result<Metrics, FioError>)
    ensures
        match document(text@) {
            None => r is Err && r->Err_0 == FioError::NotJson,
            Some(root) => match r {
                Ok(m) => {
                    &&& job_values(root, "write"@) matches Ok(v)
                    &&& m@ == write_metrics(v)
                },
                Err(e) => job_values(root, "write"@) == Err::<FioValues, FioError>(e),
            },
        },
{
    match parse(text) {
        Some(root) => fio_write_report(&root),
        None => Err(FioError::NotJson),
    }
}

/// The metrics in what a random-read job printed.
pub fn parse_fio_read_json(text: &str) -> (r: Result<Metrics, FioError>)
    ensures
        match document(text@) {
            None => r is Err && r->Err_0 == FioError::NotJson,
            Some(root) => match r {
                Ok(m) => {
                    &&& job_values(root, "read"@) matches Ok(v)
                    &&& m@ == read_metrics(v)
                },
                Err(e) => job_values(root, "read"@) == Err::<FioValues, FioError>(e),
            },
        },
{
    match parse(text) {
        Some(root) => fio_read_report(&root),
        None => Err(FioError::NotJson),
    }
}

impl FioError {
    /// What is missing from the report of a write job.
    pub fn write_message(self) -> (r: &'static str)
        ensures
            r@ == match self {
                FioError::NotJson => "fio JSON parse"@,
                FioError::NoJob => "jobs[0] missing in fio output"@,
                FioError::NoSide => "jobs[0].write missing in fio output"@,
                FioError::NoIops => "jobs[0].write.iops missing"@,
                FioError::NoBandwidth => "jobs[0].write.bw missing"@,
                FioError::NoPercentiles => "jobs[0].write.clat_ns.percentile missing"@,
                FioError::NoP50 => "clat p50 missing"@,
                FioError::NoP99 => "clat p99 missing"@,
                FioError::NoP999 => "clat p99.9 missing"@,
            },
    {
        match self {
            FioError::NotJson => "fio JSON parse",
            FioError::NoJob => "jobs[0] missing in fio output",
            FioError::NoSide => "jobs[0].write missing in fio output",
            FioError::NoIops => "jobs[0].write.iops missing",
            FioError::NoBandwidth => "jobs[0].write.bw missing",
            FioError::NoPercentiles => "jobs[0].write.clat_ns.percentile missing",
            FioError::NoP50 => "clat p50 missing",
            FioError::NoP99 => "clat p99 missing",
            FioError::NoP999 => "clat p99.9 missing",
        }
    }

    /// What is missing from the report of a read job.
    pub fn read_message(self) -> (r: &'static str)
        ensures
            r@ == match self {
                FioError::NotJson => "fio JSON parse"@,
                FioError::NoJob => "jobs[0] missing"@,
                FioError::NoSide => "jobs[0].read missing"@,
                FioError::NoIops => "jobs[0].read.iops missing"@,
                FioError::NoBandwidth => "jobs[0].read.bw missing"@,
                FioError::NoPercentiles => "jobs[0].read.clat_ns.percentile missing"@,
                FioError::NoP50 => "clat p50 missing"@,
                FioError::NoP99 => "clat p99 missing"@,
                FioError::NoP999 => "clat p99.9 missing"@,
            },
    {
        match self {
            FioError::NotJson => "fio JSON parse",
            FioError::NoJob => "jobs[0] missing",
            FioError::NoSide => "jobs[0].read missing",
            FioError::NoIops => "jobs[0].read.iops missing",
            FioError::NoBandwidth => "jobs[0].read.bw missing",
            FioError::NoPercentiles => "jobs[0].read.clat_ns.percentile missing",
            FioError::NoP50 => "clat p50 missing",
            FioError::NoP99 => "clat p99 missing",
            FioError::NoP999 => "clat p99.9 missing",
        }
    }
}

proof fn lemma_write_names()
    ensures
        "disk_fio_iops_per_sec"@ != "disk_fio_bw_kb_per_sec"@,
        "disk_fio_iops_per_sec"@ != "disk_fio_clat_p50_ns"@,
        "disk_fio_iops_per_sec"@ != "disk_fio_clat_p99_ns"@,
        "disk_fio_iops_per_sec"@ != "disk_fio_clat_p999_ns"@,
        "disk_fio_bw_kb_per_sec"@ != "disk_fio_clat_p50_ns"@,
        "disk_fio_bw_kb_per_sec"@ != "disk_fio_clat_p99_ns"@,
        "disk_fio_bw_kb_per_sec"@ != "disk_fio_clat_p999_ns"@,
        "disk_fio_clat_p50_ns"@ != "disk_fio_clat_p99_ns"@,
        "disk_fio_clat_p50_ns"@ != "disk_fio_clat_p999_ns"@,
        "disk_fio_clat_p99_ns"@ != "disk_fio_clat_p999_ns"@,
{
    reveal_strlit("disk_fio_iops_per_sec");
    reveal_strlit("disk_fio_bw_kb_per_sec");
    reveal_strlit("disk_fio_clat_p50_ns");
    reveal_strlit("disk_fio_clat_p99_ns");
    reveal_strlit("disk_fio_clat_p999_ns");
    assert("disk_fio_iops_per_sec"@.len() != "disk_fio_bw_kb_per_sec"@.len());
    assert("disk_fio_iops_per_sec"@.len() != "disk_fio_clat_p50_ns"@.len());
    assert("disk_fio_iops_per_sec"@.len() != "disk_fio_clat_p99_ns"@.len());
    assert("disk_fio_iops_per_sec"@[9] != "disk_fio_clat_p999_ns"@[9]);
    assert("disk_fio_bw_kb_per_sec"@.len() != "disk_fio_clat_p50_ns"@.len());
    assert("disk_fio_bw_kb_per_sec"@.len() != "disk_fio_clat_p99_ns"@.len());
    assert("disk_fio_bw_kb_per_sec"@.len() != "disk_fio_clat_p999_ns"@.len());
    assert("disk_fio_clat_p50_ns"@[15] != "disk_fio_clat_p99_ns"@[15]);
    assert("disk_fio_clat_p50_ns"@.len() != "disk_fio_clat_p999_ns"@.len());
    assert("disk_fio_clat_p99_ns"@.len() != "disk_fio_clat_p999_ns"@.len());
}

/// Each metric of a random-write job is the number that the report holds at its place under
/// `.jobs[0].write`: the rates at `iops` and `bw`, and the latencies at `clat_ns.percentile` under
/// the percentile that the metric is named after. There are no other metrics.
pub proof fn law_write_metrics_are_reported(
    root: JsonView,
    jobs: Seq<JsonView>,
    side: JsonView,
    clat: JsonView,
    percentiles: JsonView,
    v: FioValues,
)
    requires
        root.member("jobs"@) == Some(JsonView::Array(jobs)),
        jobs.len() > 0,
        jobs[0].member("write"@) == Some(side),
        side.member("clat_ns"@) == Some(clat),
        clat.member("percentile"@) == Some(percentiles),
        job_values(root, "write"@) == Ok::<FioValues, FioError>(v),
    ensures
        side.member("iops"@) == Some(
            JsonView::Number(Some(write_metrics(v)["disk_fio_iops_per_sec"@])),
        ),
        side.member("bw"@) == Some(
            JsonView::Number(Some(write_metrics(v)["disk_fio_bw_kb_per_sec"@])),
        ),
        percentiles.member("50.000000"@) == Some(
            JsonView::Number(Some(write_metrics(v)["disk_fio_clat_p50_ns"@])),
        ),
        percentiles.member("99.000000"@) == Some(
            JsonView::Number(Some(write_metrics(v)["disk_fio_clat_p99_ns"@])),
        ),
        percentiles.member("99.900000"@) == Some(
            JsonView::Number(Some(write_metrics(v)["disk_fio_clat_p999_ns"@])),
        ),
        forall|n: Seq<char>| #[trigger]
            write_metrics(v).contains_key(n) <==> n == "disk_fio_iops_per_sec"@
                || n == "disk_fio_bw_kb_per_sec"@
                || n == "disk_fio_clat_p50_ns"@
                || n == "disk_fio_clat_p99_ns"@
                || n == "disk_fio_clat_p999_ns"@,
{
    lemma_write_names();
}

/// Percentiles that ascend in the report of a random-write job ascend in its metrics.
pub proof fn law_write_percentiles_ascend(
    root: JsonView,
    jobs: Seq<JsonView>,
    side: JsonView,
    clat: JsonView,
    percentiles: JsonView,
    v: FioValues,
    low: Double,
    middle: Double,
    high: Double,
)
    requires
        root.member("jobs"@) == Some(JsonView::Array(jobs)),
        jobs.len() > 0,
        jobs[0].member("write"@) == Some(side),
        side.member("clat_ns"@) == Some(clat),
        clat.member("percentile"@) == Some(percentiles),
        percentiles.member("50.000000"@) == Some(JsonView::Number(Some(low))),
        percentiles.member("99.000000"@) == Some(JsonView::Number(Some(middle))),
        percentiles.member("99.900000"@) == Some(JsonView::Number(Some(high))),
        low.less(middle),
        middle.less(high),
        job_values(root, "write"@) == Ok::<FioValues, FioError>(v),
    ensures
        write_metrics(v)["disk_fio_clat_p50_ns"@].less(write_metrics(v)["disk_fio_clat_p99_ns"@]),
        write_metrics(v)["disk_fio_clat_p99_ns"@].less(write_metrics(v)["disk_fio_clat_p999_ns"@]),
{
    law_write_metrics_are_reported(root, jobs, side, clat, percentiles, v);
}

proof fn lemma_read_names()
    ensures
        "disk_read_fio_iops_per_sec"@ != "disk_read_fio_bw_kb_per_sec"@,
        "disk_read_fio_iops_per_sec"@ != "disk_read_fio_clat_p50_ns"@,
        "disk_read_fio_iops_per_sec"@ != "disk_read_fio_clat_p99_ns"@,
        "disk_read_fio_iops_per_sec"@ != "disk_read_fio_clat_p999_ns"@,
        "disk_read_fio_bw_kb_per_sec"@ != "disk_read_fio_clat_p50_ns"@,
        "disk_read_fio_bw_kb_per_sec"@ != "disk_read_fio_clat_p99_ns"@,
        "disk_read_fio_bw_kb_per_sec"@ != "disk_read_fio_clat_p999_ns"@,
        "disk_read_fio_clat_p50_ns"@ != "disk_read_fio_clat_p99_ns"@,
        "disk_read_fio_clat_p50_ns"@ != "disk_read_fio_clat_p999_ns"@,
        "disk_read_fio_clat_p99_ns"@ != "disk_read_fio_clat_p999_ns"@,
{
    reveal_strlit("disk_read_fio_iops_per_sec");
    reveal_strlit("disk_read_fio_bw_kb_per_sec");
    reveal_strlit("disk_read_fio_clat_p50_ns");
    reveal_strlit("disk_read_fio_clat_p99_ns");
    reveal_strlit("disk_read_fio_clat_p999_ns");
    assert("disk_read_fio_iops_per_sec"@.len() != "disk_read_fio_bw_kb_per_sec"@.len());
    assert("disk_read_fio_iops_per_sec"@.len() != "disk_read_fio_clat_p50_ns"@.len());
    assert("disk_read_fio_iops_per_sec"@.len() != "disk_read_fio_clat_p99_ns"@.len());
    assert("disk_read_fio_iops_per_sec"@[14] != "disk_read_fio_clat_p999_ns"@[14]);
    assert("disk_read_fio_bw_kb_per_sec"@.len() != "disk_read_fio_clat_p50_ns"@.len());
    assert("disk_read_fio_bw_kb_per_sec"@.len() != "disk_read_fio_clat_p99_ns"@.len());
    assert("disk_read_fio_bw_kb_per_sec"@.len() != "disk_read_fio_clat_p999_ns"@.len());
    assert("disk_read_fio_clat_p50_ns"@[20] != "disk_read_fio_clat_p99_ns"@[20]);
    assert("disk_read_fio_clat_p50_ns"@.len() != "disk_read_fio_clat_p999_ns"@.len());
    assert("disk_read_fio_clat_p99_ns"@.len() != "disk_read_fio_clat_p999_ns"@.len());
}

/// Each metric of a random-read job is the number that the report holds at its place under
/// `.jobs[0].read`: the rates at `iops` and `bw`, and the latencies at `clat_ns.percentile` under
/// the percentile that the metric is named after. There are no other metrics.
pub proof fn law_read_metrics_are_reported(
    root: JsonView,
    jobs: Seq<JsonView>,
    side: JsonView,
    clat: JsonView,
    percentiles: JsonView,
    v: FioValues,
)
    requires
        root.member("jobs"@) == Some(JsonView::Array(jobs)),
        jobs.len() > 0,
        jobs[0].member("read"@) == Some(side),
        side.member("clat_ns"@) == Some(clat),
        clat.member("percentile"@) == Some(percentiles),
        job_values(root, "read"@) == Ok::<FioValues, FioError>(v),
    ensures
        side.member("iops"@) == Some(
            JsonView::Number(Some(read_metrics(v)["disk_read_fio_iops_per_sec"@])),
        ),
        side.member("bw"@) == Some(
            JsonView::Number(Some(read_metrics(v)["disk_read_fio_bw_kb_per_sec"@])),
        ),
        percentiles.member("50.000000"@) == Some(
            JsonView::Number(Some(read_metrics(v)["disk_read_fio_clat_p50_ns"@])),
        ),
        percentiles.member("99.000000"@) == Some(
            JsonView::Number(Some(read_metrics(v)["disk_read_fio_clat_p99_ns"@])),
        ),
        percentiles.member("99.900000"@) == Some(
            JsonView::Number(Some(read_metrics(v)["disk_read_fio_clat_p999_ns"@])),
        ),
        forall|n: Seq<char>| #[trigger]
            read_metrics(v).contains_key(n) <==> n == "disk_read_fio_iops_per_sec"@
                || n == "disk_read_fio_bw_kb_per_sec"@
                || n == "disk_read_fio_clat_p50_ns"@
                || n == "disk_read_fio_clat_p99_ns"@
                || n == "disk_read_fio_clat_p999_ns"@,
{
    lemma_read_names();
}

/// Percentiles that ascend in the report of a random-read job ascend in its metrics.
pub proof fn law_read_percentiles_ascend(
    root: JsonView,
    jobs: Seq<JsonView>,
    side: JsonView,
    clat: JsonView,
    percentiles: JsonView,
    v: FioValues,
    low: Double,
    middle: Double,
    high: Double,
)
    requires
        root.member("jobs"@) == Some(JsonView::Array(jobs)),
        jobs.len() > 0,
        jobs[0].member("read"@) == Some(side),
        side.member("clat_ns"@) == Some(clat),
        clat.member("percentile"@) == Some(percentiles),
        percentiles.member("50.000000"@) == Some(JsonView::Number(Some(low))),
        percentiles.member("99.000000"@) == Some(JsonView::Number(Some(middle))),
        percentiles.member("99.900000"@) == Some(JsonView::Number(Some(high))),
        low.less(middle),
        middle.less(high),
        job_values(root, "read"@) == Ok::<FioValues, FioError>(v),
    ensures
        read_metrics(v)["disk_read_fio_clat_p50_ns"@].less(read_metrics(v)["disk_read_fio_clat_p99_ns"@]),
        read_metrics(v)["disk_read_fio_clat_p99_ns"@].less(read_metrics(v)["disk_read_fio_clat_p999_ns"@]),
{
    law_read_metrics_are_reported(root, jobs, side, clat, percentiles, v);
}

/// Whether the member `name` of an object is a number.
pub open spec fn has_number(v: JsonView, name: Seq<char>) -> bool {
    match v.member(name) {
        Some(JsonView::Number(Some(_))) => true,
        _ => false,
    }
}

/// Whether `percentiles` are those of the latency of `side`.
pub open spec fn has_percentiles(side: JsonView, percentiles: JsonView) -> bool {
    exists|clat: JsonView|
        side.member("clat_ns"@) == Some(clat) && #[trigger] clat.member("percentile"@) == Some(
            percentiles,
        )
}

/// A report is refused for the first thing that it lacks, and accepted where it lacks nothing: its
/// first job, the side of that job, both rates, the percentiles, and each of the three.
pub proof fn law_first_missing_is_named(
    root: JsonView,
    name: Seq<char>,
    jobs: Seq<JsonView>,
    side: JsonView,
    percentiles: JsonView,
)
    ensures
        job_values(root, name) == Err::<FioValues, FioError>(FioError::NoJob) <==> !(exists|
            list: Seq<JsonView>,
        |
            root.member("jobs"@) == Some(JsonView::Array(list)) && #[trigger] list.len() > 0),
        root.member("jobs"@) == Some(JsonView::Array(jobs)) && jobs.len() > 0 ==> {
            &&& job_values(root, name) == Err::<FioValues, FioError>(FioError::NoSide)
                <==> jobs[0].member(name) is None
            &&& jobs[0].member(name) == Some(side) ==> {
                let e = job_values(root, name);
                &&& e == Err::<FioValues, FioError>(FioError::NoIops) <==> !has_number(
                    side,
                    "iops"@,
                )
                &&& e == Err::<FioValues, FioError>(FioError::NoBandwidth) <==> has_number(
                    side,
                    "iops"@,
                ) && !has_number(side, "bw"@)
                &&& e == Err::<FioValues, FioError>(FioError::NoPercentiles) <==> has_number(
                    side,
                    "iops"@,
                ) && has_number(side, "bw"@) && !(exists|p: JsonView| #[trigger]
                    has_percentiles(side, p))
                &&& has_number(side, "iops"@) && has_number(side, "bw"@) && has_percentiles(
                    side,
                    percentiles,
                ) ==> {
                    let p50 = has_number(percentiles, "50.000000"@);
                    let p99 = has_number(percentiles, "99.000000"@);
                    let p999 = has_number(percentiles, "99.900000"@);
                    &&& e == Err::<FioValues, FioError>(FioError::NoP50) <==> !p50
                    &&& e == Err::<FioValues, FioError>(FioError::NoP99) <==> p50 && !p99
                    &&& e == Err::<FioValues, FioError>(FioError::NoP999) <==> p50 && p99 && !p999
                    &&& e is Ok <==> p50 && p99 && p999
                }
            }
        },
{
    assert forall|v: JsonView, n: Seq<char>| has_number(v, n) <==> #[trigger] v.number_at(
        n,
    ) is Some by {}
    if root.first_of("jobs"@) is Some {
        assert(root.member("jobs"@)->0->Array_0.len() > 0);
    }
    if percentiles_of(side) is Some {
        let clat = side.member("clat_ns"@)->0;
        assert(clat.member("percentile"@) == Some(percentiles_of(side)->0));
        assert(has_percentiles(side, percentiles_of(side)->0));
    }
    assert(has_percentiles(side, percentiles) ==> percentiles_of(side) == Some(percentiles));
}

} // verus!
