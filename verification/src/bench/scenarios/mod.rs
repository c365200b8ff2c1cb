//! The benchmark scenarios.
//!
//! A scenario is driven from outside: it says which box to create, which commands to run and what
//! to wait for, and turns what was observed into the metrics of its sample.

pub mod clone_batch;
pub mod common;
pub mod copy_io;
pub mod dd;
pub mod dedup_lookup;
pub mod density;
pub mod disk;
pub mod disk_fio;
pub mod disk_read;
pub mod dns_latency;
pub mod exec_loop;
pub mod exec_parallel;
pub mod fio;
pub mod healthcheck_overhead;
pub mod image_pull_cached;
pub mod inspect_list;
pub mod iperf3;
pub mod latency;
pub mod latency_big_image;
pub mod latency_jailed;
pub mod latency_no_net;
pub mod lifecycle;
pub mod lifecycle_import;
pub mod many_ports;
pub mod multi_vcpu;
pub mod net;
pub mod net_iperf3;
pub mod net_iperf3_egress;
pub mod net_iperf3_parallel;
pub mod net_tcp_cps;
pub mod net_udp;
pub mod plan;
pub mod resource;
pub mod resource_density;
pub mod resource_load;
pub mod rest_cold_start;
pub mod rest_metrics_rps;
pub mod restart_loop;
pub mod runtime_metrics_poll;
pub mod runtime_shutdown;
pub mod script;
pub mod serve_rps;
pub mod snapshot;
pub mod snapshot_loop;
pub mod soak;
pub mod soak_load;
pub mod stability;
pub mod throughput;
pub mod virtiofs;
pub mod volumes_multi;
pub mod ws_exec;

use self::clone_batch::CloneBatch;
use self::dedup_lookup::DedupLookup;
use self::image_pull_cached::ImagePullCached;
use self::inspect_list::InspectList;
use self::latency::{ColdStart, WarmStart};
use self::latency_jailed::LatencyColdStartJailed;
use self::lifecycle::{LatencyClone, ThroughputExport};
use self::runtime_shutdown::RuntimeShutdown;
use self::snapshot::Snapshot;
use crate::names::texts;
use crate::render::{align_left, left_aligned};
use crate::text::equal;
use vstd::prelude::*;

verus! {

/// A scenario as it is listed.
pub struct ScenarioEntry {
    pub name: &'static str,
    pub description: &'static str,
}

/// The names of the scenarios that can be run, in the order in which they are listed.
pub open spec fn registered() -> Seq<Seq<char>> {
    seq![
        "latency-cold-start"@,
        "latency-warm-start"@,
        "latency-cold-start-jailed"@,
        "latency-clone"@,
        "latency-clone-batch-10"@,
        "latency-snapshot"@,
        "latency-inspect-list"@,
        "latency-get-or-create-dedup"@,
        "latency-image-pull-cached"@,
        "latency-runtime-shutdown"@,
        "throughput-export"@,
    ]
}

/// What is said about each of them.
pub open spec fn descriptions() -> Seq<Seq<char>> {
    seq![
        "Fresh `--home` per iteration — measures alpine:latest first-box-on-a-fresh-machine create+start latency. Pull + base disk build + guest rootfs bootstrap all included."@,
        "Shared `--home` across iterations — measures steady-state second+ box create+start latency on a host that already has the image cache, base disk, and guest rootfs warm."@,
        "Cold-start with `SecurityOptions::maximum()` (jailer + seccomp + UID drop + new PID NS + chroot + close_fds + rlimits). Delta against latency-cold-start = the per-box isolation tax. SKIPs on platforms where full isolation is not available."@,
        "`LiteBox::clone_box` on a 64-MiB-staged source. Tests the COW-overlay + DB-row clone path."@,
        "`LiteBox::clone_boxes(N=10)` batch optimized path; per-clone amortized ms should be much smaller than `latency-clone`'s single-call cost."@,
        "`SnapshotHandle::create` + `restore` round-trip on a 64-MiB-staged box."@,
        "list_info + get_info latency at N=20 boxes. Tests SQLite query scaling for the runtime box store."@,
        "100 `rt.get_or_create(name)` calls against a pre-materialized box. Floor number for name→box-id dedup-hit lookup (SQLite name index + LiteBox materialization). Reports first-call create cost separately for context."@,
        "Warm-cache image pull: shared `--home` so the first iter populates and subsequent iters hit the manifest cache. Headline = the cost of `boxlite pull alpine` when the image is already local; should be ms-scale, not seconds. Distinct from `throughput-image-pull` which is cold-cache."@,
        "`rt.shutdown(default 10 s/box timeout)` with N=3 running boxes. Headline for container-orchestrator graceful-stop SLAs. Builds a fresh runtime per iteration because shutdown permanently disables it."@,
        "`LiteBox::export` on a 64-MiB-staged source. Reports archive bytes + MB/s. Tests the box-archive tarball serialization codepath. Shipped alongside `latency-clone` because both share the source-box staging helper in `lifecycle.rs`."@,
    ]
}

/// The scenarios that can be run, in the order in which they are listed.
pub fn registry() -> (r: Vec<ScenarioEntry>)
    ensures
        r@.len() == registered().len(),
        forall|i: int|
            0 <= i < r@.len() ==> (#[trigger] r@[i]).name@ == registered()[i]
                && r@[i].description@ == descriptions()[i],
{
    let mut r: Vec<ScenarioEntry> = Vec::new();
    r.push(
        ScenarioEntry {
            name: "latency-cold-start",
            description: "Fresh `--home` per iteration — measures alpine:latest first-box-on-a-fresh-machine create+start latency. Pull + base disk build + guest rootfs bootstrap all included.",
        },
    );
    r.push(
        ScenarioEntry {
            name: "latency-warm-start",
            description: "Shared `--home` across iterations — measures steady-state second+ box create+start latency on a host that already has the image cache, base disk, and guest rootfs warm.",
        },
    );
    r.push(
        ScenarioEntry {
            name: "latency-cold-start-jailed",
            description: "Cold-start with `SecurityOptions::maximum()` (jailer + seccomp + UID drop + new PID NS + chroot + close_fds + rlimits). Delta against latency-cold-start = the per-box isolation tax. SKIPs on platforms where full isolation is not available.",
        },
    );
    r.push(
        ScenarioEntry {
            name: "latency-clone",
            description: "`LiteBox::clone_box` on a 64-MiB-staged source. Tests the COW-overlay + DB-row clone path.",
        },
    );
    r.push(
        ScenarioEntry {
            name: "latency-clone-batch-10",
            description: "`LiteBox::clone_boxes(N=10)` batch optimized path; per-clone amortized ms should be much smaller than `latency-clone`'s single-call cost.",
        },
    );
    r.push(
        ScenarioEntry {
            name: "latency-snapshot",
            description: "`SnapshotHandle::create` + `restore` round-trip on a 64-MiB-staged box.",
        },
    );
    r.push(
        ScenarioEntry {
            name: "latency-inspect-list",
            description: "list_info + get_info latency at N=20 boxes. Tests SQLite query scaling for the runtime box store.",
        },
    );
    r.push(
        ScenarioEntry {
            name: "latency-get-or-create-dedup",
            description: "100 `rt.get_or_create(name)` calls against a pre-materialized box. Floor number for name→box-id dedup-hit lookup (SQLite name index + LiteBox materialization). Reports first-call create cost separately for context.",
        },
    );
    r.push(
        ScenarioEntry {
            name: "latency-image-pull-cached",
            description: "Warm-cache image pull: shared `--home` so the first iter populates and subsequent iters hit the manifest cache. Headline = the cost of `boxlite pull alpine` when the image is already local; should be ms-scale, not seconds. Distinct from `throughput-image-pull` which is cold-cache.",
        },
    );
    r.push(
        ScenarioEntry {
            name: "latency-runtime-shutdown",
            description: "`rt.shutdown(default 10 s/box timeout)` with N=3 running boxes. Headline for container-orchestrator graceful-stop SLAs. Builds a fresh runtime per iteration because shutdown permanently disables it.",
        },
    );
    r.push(
        ScenarioEntry {
            name: "throughput-export",
            description: "`LiteBox::export` on a 64-MiB-staged source. Reports archive bytes + MB/s. Tests the box-archive tarball serialization codepath. Shipped alongside `latency-clone` because both share the source-box staging helper in `lifecycle.rs`.",
        },
    );
    r
}

/// A scenario that can be run.
pub enum AnyScenario {
    ColdStart(ColdStart),
    WarmStart(WarmStart),
    ColdStartJailed(LatencyColdStartJailed),
    Clone(LatencyClone),
    CloneBatch(CloneBatch),
    Snapshot(Snapshot),
    InspectList(InspectList),
    DedupLookup(DedupLookup),
    ImagePullCached(ImagePullCached),
    RuntimeShutdown(RuntimeShutdown),
    Export(ThroughputExport),
}

impl AnyScenario {
    /// The name under which the scenario is listed.
    pub open spec fn called(self) -> Seq<char> {
        match self {
            AnyScenario::ColdStart(_) => "latency-cold-start"@,
            AnyScenario::WarmStart(_) => "latency-warm-start"@,
            AnyScenario::ColdStartJailed(_) => "latency-cold-start-jailed"@,
            AnyScenario::Clone(_) => "latency-clone"@,
            AnyScenario::CloneBatch(_) => "latency-clone-batch-10"@,
            AnyScenario::Snapshot(_) => "latency-snapshot"@,
            AnyScenario::InspectList(_) => "latency-inspect-list"@,
            AnyScenario::DedupLookup(_) => "latency-get-or-create-dedup"@,
            AnyScenario::ImagePullCached(_) => "latency-image-pull-cached"@,
            AnyScenario::RuntimeShutdown(_) => "latency-runtime-shutdown"@,
            AnyScenario::Export(_) => "throughput-export"@,
        }
    }

    /// Whether the scenario has not been run yet.
    pub open spec fn fresh(self) -> bool {
        match self {
            AnyScenario::ColdStart(s) => s.previous_home.path is None,
            AnyScenario::WarmStart(s) => s.home.path is None,
            AnyScenario::ColdStartJailed(_) => true,
            AnyScenario::Clone(s) => s.source.home.path is None && s.source.id is None,
            AnyScenario::CloneBatch(s) => s.source.home.path is None && s.source.id is None,
            AnyScenario::Snapshot(s) => s.source.home.path is None && s.source.id is None,
            AnyScenario::InspectList(s) => s.home.path is None && s.box_ids@.len() == 0,
            AnyScenario::DedupLookup(s) => s.home.path is None && s.first_create_ms is None,
            AnyScenario::ImagePullCached(s) => s.home.path is None && s.iter == 0,
            AnyScenario::RuntimeShutdown(s) => s.home.path is None,
            AnyScenario::Export(s) => {
                &&& s.source.home.path is None
                &&& s.source.id is None
                &&& s.export_scratch.path is None
            },
        }
    }

    /// The name under which the scenario is listed.
    pub fn name(&self) -> (r: &'static str)
        ensures
            r@ == self.called(),
    {
        match self {
            AnyScenario::ColdStart(s) => s.name(),
            AnyScenario::WarmStart(s) => s.name(),
            AnyScenario::ColdStartJailed(s) => s.name(),
            AnyScenario::Clone(s) => s.name(),
            AnyScenario::CloneBatch(s) => s.name(),
            AnyScenario::Snapshot(s) => s.name(),
            AnyScenario::InspectList(s) => s.name(),
            AnyScenario::DedupLookup(s) => s.name(),
            AnyScenario::ImagePullCached(s) => s.name(),
            AnyScenario::RuntimeShutdown(s) => s.name(),
            AnyScenario::Export(s) => s.name(),
        }
    }
}

/// The scenario of a name, ready to be run, if there is one.
pub fn build_by_name(name: &str) -> (r: Option<AnyScenario>)
    ensures
        r is Some <==> registered().contains(name@),
        r matches Some(s) ==> s.called() == name@ && s.fresh(),
{
    if equal(name, "latency-cold-start") {
        assert(registered()[0] == name@);
        return Some(AnyScenario::ColdStart(ColdStart::new()));
    }
    if equal(name, "latency-warm-start") {
        assert(registered()[1] == name@);
        return Some(AnyScenario::WarmStart(WarmStart::new()));
    }
    if equal(name, "latency-cold-start-jailed") {
        assert(registered()[2] == name@);
        return Some(AnyScenario::ColdStartJailed(LatencyColdStartJailed::new()));
    }
    if equal(name, "latency-clone") {
        assert(registered()[3] == name@);
        return Some(AnyScenario::Clone(LatencyClone::new()));
    }
    if equal(name, "latency-clone-batch-10") {
        assert(registered()[4] == name@);
        return Some(AnyScenario::CloneBatch(CloneBatch::new()));
    }
    if equal(name, "latency-snapshot") {
        assert(registered()[5] == name@);
        return Some(AnyScenario::Snapshot(Snapshot::new()));
    }
    if equal(name, "latency-inspect-list") {
        assert(registered()[6] == name@);
        return Some(AnyScenario::InspectList(InspectList::new()));
    }
    if equal(name, "latency-get-or-create-dedup") {
        assert(registered()[7] == name@);
        return Some(AnyScenario::DedupLookup(DedupLookup::new()));
    }
    if equal(name, "latency-image-pull-cached") {
        assert(registered()[8] == name@);
        return Some(AnyScenario::ImagePullCached(ImagePullCached::new()));
    }
    if equal(name, "latency-runtime-shutdown") {
        assert(registered()[9] == name@);
        return Some(AnyScenario::RuntimeShutdown(RuntimeShutdown::new()));
    }
    if equal(name, "throughput-export") {
        assert(registered()[10] == name@);
        return Some(AnyScenario::Export(ThroughputExport::new()));
    }
    None
}

/// No two scenarios that can be run have the same name.
pub proof fn law_registered_names_are_unique()
    ensures
        forall|i: int, j: int|
            0 <= i < j < registered().len() ==> #[trigger] registered()[i]
                != #[trigger] registered()[j],
{
    reveal_strlit("latency-cold-start");
    reveal_strlit("latency-warm-start");
    reveal_strlit("latency-cold-start-jailed");
    reveal_strlit("latency-clone");
    reveal_strlit("latency-clone-batch-10");
    reveal_strlit("latency-snapshot");
    reveal_strlit("latency-inspect-list");
    reveal_strlit("latency-get-or-create-dedup");
    reveal_strlit("latency-image-pull-cached");
    reveal_strlit("latency-runtime-shutdown");
    reveal_strlit("throughput-export");
    assert(registered()[0][8] == 'c' && registered()[1][8] == 'w');
    assert(registered()[2][8] == 'c' && registered()[8][8] == 'i');
    assert forall|i: int, j: int| 0 <= i < j < registered().len() implies #[trigger] registered()[i]
        != #[trigger] registered()[j] by {
        assert(registered()[i].len() == registered()[j].len() ==> (i == 0 && j == 1) || (i == 2 && j
            == 8));
    }
}

/// What is listed: a title and a line for each scenario, or that there is none.
pub open spec fn listing(names: Seq<Seq<char>>, descriptions: Seq<Seq<char>>) -> Seq<Seq<char>> {
    if names.len() == 0 {
        seq!["(no scenarios registered yet)"@]
    } else {
        seq!["Available scenarios:"@] + Seq::new(
            names.len(),
            |i: int| "  "@ + left_aligned(names[i], 28) + " "@ + descriptions[i],
        )
    }
}

pub open spec fn entry_names(entries: Seq<ScenarioEntry>) -> Seq<Seq<char>> {
    entries.map_values(|e: ScenarioEntry| e.name@)
}

pub open spec fn entry_descriptions(entries: Seq<ScenarioEntry>) -> Seq<Seq<char>> {
    entries.map_values(|e: ScenarioEntry| e.description@)
}

/// The lines that list the scenarios.
pub fn list_scenarios(entries: &Vec<ScenarioEntry>) -> (r: Vec<String>)
    ensures
        texts(r@) == listing(entry_names(entries@), entry_descriptions(entries@)),
{
    let mut r: Vec<String> = Vec::new();
    let ghost all = listing(entry_names(entries@), entry_descriptions(entries@));
    if entries.len() == 0 {
        r.push("(no scenarios registered yet)".to_owned());
        assert(texts(r@) =~= all);
        return r;
    }
    r.push("Available scenarios:".to_owned());
    let mut i: usize = 0;
    assert(texts(r@) =~= all.take(1));
    while i < entries.len()
        invariant
            i <= entries.len(),
            0 < entries.len(),
            all == listing(entry_names(entries@), entry_descriptions(entries@)),
            texts(r@) == all.take(i + 1),
        decreases entries.len() - i,
    {
        let ghost done = texts(r@);
        let mut line: String = "  ".to_owned();
        line.append(align_left(entries[i].name, 28).as_str());
        line.append(" ");
        line.append(entries[i].description);
        r.push(line);
        proof {
            assert(texts(r@) =~= done.push(line@));
            assert(all[i + 1] == line@);
            assert(all.take(i + 2) =~= all.take(i + 1).push(line@));
        }
        i = i + 1;
    }
    assert(all.take(all.len() as int) =~= all);
    r
}

} // verus!
