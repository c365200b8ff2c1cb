//! Scenarios: what they do and what they report.

use boxlite_cli::bench::clock::Span;
use boxlite_cli::bench::scenarios::clone_batch::CloneBatch;
use boxlite_cli::bench::scenarios::common::{
    mib_per_sec, occupied_bytes, per_sec, populate_stage_metrics, BoxGuard, Command, Metrics,
    StageTimes,
};
use boxlite_cli::bench::scenarios::copy_io::{CopyInto, CopyOut};
use boxlite_cli::bench::scenarios::dedup_lookup::DedupLookup;
use boxlite_cli::bench::scenarios::density::DensityParallel10;
use boxlite_cli::bench::scenarios::disk::DiskWrite;
use boxlite_cli::bench::scenarios::dns_latency::{DnsLatency, Lookup};
use boxlite_cli::bench::scenarios::exec_loop::ExecLoop;
use boxlite_cli::bench::scenarios::exec_parallel::ExecParallel;
use boxlite_cli::bench::scenarios::healthcheck_overhead::HealthcheckOverhead;
use boxlite_cli::bench::scenarios::image_pull_cached::ImagePullCached;
use boxlite_cli::bench::scenarios::inspect_list::InspectList;
use boxlite_cli::bench::scenarios::latency::{ColdStart, WarmStart};
use boxlite_cli::bench::scenarios::latency_big_image::LatencyColdStartBigImage;
use boxlite_cli::bench::scenarios::latency_jailed::{JailedSkip, LatencyColdStartJailed};
use boxlite_cli::bench::scenarios::latency_no_net::LatencyColdStartNoNet;
use boxlite_cli::bench::scenarios::lifecycle::{LatencyClone, ThroughputExport};
use boxlite_cli::bench::scenarios::lifecycle_import::ThroughputImport;
use boxlite_cli::bench::scenarios::many_ports::ManyPorts;
use boxlite_cli::bench::scenarios::multi_vcpu::MultiVcpu;
use boxlite_cli::bench::scenarios::net::{next_chunk, NetTcpSink, Sending};
use boxlite_cli::bench::scenarios::net_iperf3::NetIperf3;
use boxlite_cli::bench::scenarios::net_iperf3_egress::NetIperf3Egress;
use boxlite_cli::bench::scenarios::net_iperf3_parallel::NetIperf3Parallel;
use boxlite_cli::bench::scenarios::net_tcp_cps::TcpCps;
use boxlite_cli::bench::scenarios::net_udp::{NetUdp, UdpSkip};
use boxlite_cli::bench::scenarios::plan::Act;
use boxlite_cli::bench::scenarios::resource::ResourceIdle;
use boxlite_cli::bench::scenarios::resource_density::{sum_known, DensityIdle};
use boxlite_cli::bench::scenarios::resource_load::{CpuLoad, Ending, MemPressure};
use boxlite_cli::bench::scenarios::rest_cold_start::RestColdStart;
use boxlite_cli::bench::scenarios::rest_metrics_rps::RestMetricsRps;
use boxlite_cli::bench::scenarios::restart_loop::RestartLoop;
use boxlite_cli::bench::scenarios::runtime_metrics_poll::RuntimeMetricsPoll;
use boxlite_cli::bench::scenarios::runtime_shutdown::RuntimeShutdown;
use boxlite_cli::bench::scenarios::script::Step;
use boxlite_cli::bench::scenarios::serve_rps::{readiness, Readiness, ServeRps};
use boxlite_cli::bench::scenarios::snapshot::Snapshot;
use boxlite_cli::bench::scenarios::snapshot_loop::SnapshotLoop;
use boxlite_cli::bench::scenarios::soak::{configured_soak_secs, Soak};
use boxlite_cli::bench::scenarios::soak_load::{workload_cycles, SoakLoad};
use boxlite_cli::bench::scenarios::stability::Churn;
use boxlite_cli::bench::scenarios::throughput::ImagePull;
use boxlite_cli::bench::scenarios::virtiofs::Virtiofs;
use boxlite_cli::bench::scenarios::volumes_multi::VolumesMulti;
use boxlite_cli::bench::scenarios::ws_exec::WsExec;
use boxlite_cli::bench::scenarios::{build_by_name, list_scenarios, registry};
use boxlite_cli::number::double::Double;
use boxlite_cli::number::single::Single;

#[test]
fn every_registered_scenario_is_buildable() {
    for entry in registry() {
        let built = build_by_name(entry.name);
        assert!(
            built.is_some(),
            "registry entry {:?} has no build_by_name arm",
            entry.name
        );
        let s = built.unwrap();
        assert_eq!(
            s.name(),
            entry.name,
            "build_by_name({:?}) returned a scenario reporting name() = {:?}",
            entry.name,
            s.name()
        );
    }
}

#[test]
fn registry_names_are_unique() {
    let mut seen = std::collections::HashSet::new();
    for entry in registry() {
        assert!(
            seen.insert(entry.name),
            "duplicate scenario name in registry: {:?}",
            entry.name
        );
    }
}

#[test]
fn unknown_scenarios_are_not_built() {
    assert!(build_by_name("").is_none());
    assert!(build_by_name("no-such-scenario").is_none());
}

#[test]
fn the_listing_names_every_scenario() {
    let lines = list_scenarios(&registry());
    for entry in registry() {
        assert!(lines.iter().any(|l| l.contains(entry.name)));
    }
}

fn ms(n: u64) -> Span {
    Span { secs: n / 1000, nanos: ((n % 1000) * 1_000_000) as u32 }
}

fn single(x: f32) -> Single {
    Single::from_bits(x.to_bits())
}

fn show(m: &Metrics) -> Vec<(String, f64)> {
    (0..m.len())
        .map(|i| {
            let e = m.entry(i);
            (e.name.clone(), f64::from_bits(e.value.to_bits()))
        })
        .collect()
}

fn is(m: &Metrics, expected: &[(&str, f64)]) {
    let mut wanted: Vec<(String, f64)> =
        expected.iter().map(|(n, x)| (n.to_string(), *x)).collect();
    wanted.sort_by(|a, b| a.0.cmp(&b.0));
    assert_eq!(show(m), wanted);
}

fn line(c: &Command) -> String {
    let mut parts = vec![c.program.clone()];
    parts.extend(c.args.iter().cloned());
    parts.join(" ")
}

const STAGES: StageTimes = StageTimes {
    total_create: Some(1500),
    guest_boot: Some(700),
    filesystem_setup: None,
    image_prepare: Some(0),
    guest_rootfs: None,
    box_config: Some(3),
    box_spawn: Some(4),
    container_init: Some(5),
};

const STAGE_METRICS: [(&str, f64); 6] = [
    ("total_create_ms", 1500.0),
    ("guest_boot_ms", 700.0),
    ("stage_image_prepare_ms", 0.0),
    ("stage_box_config_ms", 3.0),
    ("stage_box_spawn_ms", 4.0),
    ("stage_container_init_ms", 5.0),
];

#[test]
fn known_stages_become_metrics() {
    is(&populate_stage_metrics(STAGES), &STAGE_METRICS);
    is(&WarmStart::new().metrics(STAGES), &STAGE_METRICS);
    let mut cold = ColdStart::new();
    is(&cold.finish("/tmp/h".to_string(), STAGES), &STAGE_METRICS);
    is(&RestColdStart::new().metrics(STAGES), &STAGE_METRICS);
    is(&LatencyColdStartJailed::new().metrics(STAGES), &STAGE_METRICS);
    is(&LatencyColdStartNoNet::new().finish("h".to_string(), STAGES), &STAGE_METRICS);
    is(&LatencyColdStartBigImage::new().finish("h".to_string(), STAGES), &STAGE_METRICS);
}

#[test]
fn batches_are_divided_by_their_size() {
    is(
        &CloneBatch::new().metrics(ms(1234)),
        &[
            ("clone_batch_count", 10.0),
            ("clone_batch_ms", 1234.0),
            ("clone_batch_per_clone_ms", 123.4),
        ],
    );
    let names = CloneBatch::new().clone_names(&vec![7, 9]);
    assert_eq!(names, vec!["clone-7-0", "clone-9-1"]);
}

#[test]
fn copies_report_their_rate() {
    is(
        &CopyInto::new().metrics(ms(500)),
        &[("copy_into_ms", 500.0), ("copy_into_bytes", 67108864.0), ("copy_into_mb_per_sec", 128.0)],
    );
    is(
        &CopyOut::new().metrics(ms(2000), 1048576),
        &[("copy_out_ms", 2000.0), ("copy_out_bytes", 1048576.0), ("copy_out_mb_per_sec", 0.5)],
    );
    is(&CopyOut::new().metrics(ms(0), 5), &[("copy_out_ms", 0.0), ("copy_out_bytes", 5.0)]);
}

#[test]
fn rates_need_time_to_pass() {
    assert!(mib_per_sec(1, Double::from_bits(0)).is_none());
    assert!(per_sec(1, Double::from_bits(0)).is_none());
    is(
        &TcpCps::new().metrics(50, 2, ms(4000)),
        &[
            ("tcp_cps_count_per_sec", 12.5),
            ("tcp_cps_total_count", 50.0),
            ("tcp_cps_errors_count", 2.0),
        ],
    );
    is(
        &TcpCps::new().metrics(50, 2, ms(0)),
        &[("tcp_cps_total_count", 50.0), ("tcp_cps_errors_count", 2.0)],
    );
    is(
        &ServeRps::new().metrics(80, 0, ms(10_000)),
        &[
            ("serve_rps", 8.0),
            ("serve_success_count", 80.0),
            ("serve_error_count", 0.0),
            ("serve_concurrency", 16.0),
        ],
    );
    is(
        &RestMetricsRps::new().metrics(5, 1, ms(2000)),
        &[
            ("rest_metrics_rps", 2.5),
            ("rest_metrics_success_count", 5.0),
            ("rest_metrics_error_count", 1.0),
            ("rest_metrics_concurrency", 16.0),
        ],
    );
}

#[test]
fn the_first_creation_is_remembered() {
    let mut s = DedupLookup::new();
    assert!(s.needs_creation());
    s.created(ms(40));
    assert!(!s.needs_creation());
    s.created(ms(90));
    is(
        &s.metrics(&vec![ms(1), ms(3)]),
        &[
            ("dedup_count", 100.0),
            ("dedup_first_create_ms", 40.0),
            ("dedup_hit_mean_us", 2000.0),
            ("dedup_hit_max_us", 3000.0),
        ],
    );
}

#[test]
fn bursts_report_the_slowest_and_the_mean() {
    let s = DensityParallel10::new();
    is(
        &s.metrics(&vec![ms(100), ms(300), ms(200)]),
        &[
            ("parallel_max_latency_ms", 300.0),
            ("parallel_mean_latency_ms", 200.0),
            ("parallel_boxes_count", 10.0),
        ],
    );
    let fine = vec![Ok(ms(1)), Ok(ms(2))];
    assert_eq!(s.collect_burst(&fine).unwrap(), vec![ms(1), ms(2)]);
    let mixed = vec![Err("box 1: no".to_string()), Ok(ms(2)), Err("box 3: no".to_string())];
    assert_eq!(
        s.collect_burst(&mixed).unwrap_err(),
        "density burst had 2 failure(s) (out of 3): box 1: no; box 3: no"
    );
}

#[test]
fn disk_writes_report_what_dd_said() {
    let s = DiskWrite::new();
    is(
        &s.metrics(Double::from_u64(540), ms(125)),
        &[
            ("disk_write_mb_per_sec", 540.0),
            ("disk_write_bytes", 67108864.0),
            ("disk_write_wall_ms", 125.0),
        ],
    );
    assert!(s.check(0, "").is_ok());
    assert_eq!(
        s.check(-1, "no space").unwrap_err(),
        "dd exited non-zero (-1); stderr:\nno space"
    );
    is(
        &Virtiofs::new().metrics(Double::from_u64(100), 67108864, ms(640)),
        &[
            ("virtiofs_write_mb_per_sec", 100.0),
            ("virtiofs_write_bytes", 67108864.0),
            ("virtiofs_host_observed_bytes", 67108864.0),
            ("virtiofs_write_wall_ms", 640.0),
        ],
    );
}

#[test]
fn lookups_are_counted_and_timed() {
    let local =
        vec![Lookup { elapsed: ms(4), exit_code: 0 }, Lookup { elapsed: ms(8), exit_code: 1 }];
    let m = DnsLatency::new().metrics(&local, &Vec::new());
    assert_eq!(f64::from_bits(m.get("dns_local_failed_count").unwrap().to_bits()), 1.0);
    assert_eq!(f64::from_bits(m.get("dns_lookups_per_target_count").unwrap().to_bits()), 20.0);
    assert_eq!(f64::from_bits(m.get("dns_external_failed_count").unwrap().to_bits()), 0.0);
}

#[test]
fn repeated_commands_are_summed_up() {
    let s = ExecLoop::new();
    is(
        &s.metrics(&vec![ms(2), ms(6)], Some(10), Some(7), Some(4096)),
        &[
            ("exec_loop_count", 500.0),
            ("exec_completed_count", 2.0),
            ("exec_mean_ms", 4.0),
            ("exec_max_ms", 6.0),
            ("exec_fd_delta_count", -3.0),
            ("exec_rss_end_bytes", 4096.0),
        ],
    );
    is(
        &s.metrics(&Vec::new(), None, Some(7), None),
        &[("exec_loop_count", 500.0), ("exec_completed_count", 0.0)],
    );
    is(
        &ExecParallel::new().metrics(ms(50), &vec![ms(30), ms(10), ms(20)]),
        &[
            ("exec_parallel_count", 20.0),
            ("exec_parallel_batch_ms", 50.0),
            ("exec_parallel_p50_ms", 20.0),
            ("exec_parallel_p99_ms", 30.0),
            ("exec_parallel_max_ms", 30.0),
        ],
    );
    is(
        &WsExec::new().metrics(&vec![ms(1), ms(2), ms(3), ms(4)]),
        &[
            ("ws_exec_count", 100.0),
            ("ws_exec_mean_ms", 2.5),
            ("ws_exec_p50_ms", 2.0),
            ("ws_exec_p99_ms", 4.0),
            ("ws_exec_max_ms", 4.0),
        ],
    );
}

#[test]
fn sampled_resources_are_summed_up() {
    is(
        &HealthcheckOverhead::new().metrics(&vec![10, 21], &vec![single(1.5), single(0.5)]),
        &[
            ("healthcheck_interval_ms", 500.0),
            ("healthcheck_samples_count", 2.0),
            ("healthcheck_rss_max_bytes", 21.0),
            ("healthcheck_rss_mean_bytes", 15.0),
            ("healthcheck_cpu_pct_max", 1.5),
            ("healthcheck_cpu_pct_mean", 1.0),
        ],
    );
    is(
        &MultiVcpu::new().metrics(&vec![5, 9, 7], &vec![single(100.0), single(300.0)]),
        &[
            ("multi_vcpu_count", 4.0),
            ("multi_vcpu_cpu_pct_mean", 200.0),
            ("multi_vcpu_cpu_pct_max", 300.0),
            ("multi_vcpu_rss_max_bytes", 9.0),
        ],
    );
    is(
        &CpuLoad::new().metrics(&vec![5], &vec![single(0.1)]),
        &[
            ("rss_load_max_bytes", 5.0),
            ("cpu_load_pct_max", 0.1f32 as f64),
            ("cpu_load_pct_mean", 0.1f32 as f64),
            ("cpu_load_samples_count", 1.0),
        ],
    );
    is(&CpuLoad::new().metrics(&Vec::new(), &Vec::new()), &[("cpu_load_samples_count", 0.0)]);
    is(
        &ResourceIdle::new().metrics(Some(1), Some(single(2.5)), None),
        &[("rss_bytes", 1.0), ("cpu_idle_pct", 2.5)],
    );
}

#[test]
fn memory_pressure_reports_how_it_ended() {
    let s = MemPressure::new();
    let rest = |code: f64| {
        [
            ("rss_pressure_max_bytes", 8.0),
            ("mem_pressure_exit_code", code),
            ("mem_pressure_limit_bytes", 268435456.0),
            ("mem_pressure_alloc_bytes", 157286400.0),
        ]
    };
    is(&s.metrics(&vec![8, 2], Ending::Exited { code: 137 }), &rest(137.0));
    is(&s.metrics(&vec![8], Ending::WaitFailed), &rest(-1.0));
    is(&s.metrics(&vec![8], Ending::TimedOut), &rest(-2.0));
}

#[test]
fn idle_density_is_shared_by_all_boxes() {
    let s = DensityIdle::new();
    is(
        &s.metrics(&vec![Some(100), None, Some(50)], &vec![Some(7), Some(1)], Some(3), Some(5)),
        &[
            ("density_box_count", 10.0),
            ("density_total_rss_bytes", 150.0),
            ("density_per_box_rss_mean_bytes", 15.0),
            ("density_total_cow_bytes", 8.0),
            ("density_host_fd_delta_count", 2.0),
        ],
    );
    is(&s.metrics(&vec![None], &vec![Some(0)], None, None), &[("density_box_count", 10.0)]);
    assert_eq!(sum_known(&vec![Some(1), None, Some(2)]), (3, 2));
}

#[test]
fn pulls_count_their_iterations() {
    let mut s = ImagePullCached::new();
    is(&s.finish(ms(9)), &[("pull_cached_ms", 9.0), ("pull_cached_iter", 1.0)]);
    is(&s.finish(ms(5)), &[("pull_cached_ms", 5.0), ("pull_cached_iter", 2.0)]);
    let mut p = ImagePull::new();
    is(
        &p.finish("h".to_string(), ms(1000), &vec![Some(1048576), None, Some(1048576)]),
        &[("pull_wall_ms", 1000.0), ("pulled_bytes", 2097152.0), ("pull_mb_per_sec", 2.0)],
    );
}

#[test]
fn populations_are_made_once_and_removed() {
    let mut s = InspectList::new();
    assert_eq!(s.missing(), 20);
    s.created("a".to_string());
    s.created("b".to_string());
    assert_eq!(s.missing(), 0);
    is(
        &s.metrics(20, ms(3), &vec![ms(1), ms(2)]),
        &[
            ("list_info_count", 20.0),
            ("list_info_ms", 3.0),
            ("get_info_mean_ms", 1.5),
            ("get_info_max_ms", 2.0),
            ("get_info_samples_count", 2.0),
        ],
    );
    assert!(s.leftovers().is_empty());
    s.home.keep("/tmp/h".to_string());
    assert_eq!(s.leftovers(), vec!["a", "b"]);
    assert!(s.leftovers().is_empty());
}

#[test]
fn clones_exports_and_imports_are_timed() {
    is(&LatencyClone::new().metrics(ms(12)), &[("clone_ms", 12.0)]);
    is(
        &ThroughputExport::new().metrics(ms(2000), 4194304),
        &[("export_ms", 2000.0), ("export_bytes", 4194304.0), ("export_mb_per_sec", 2.0)],
    );
    let mut s = ThroughputImport::new();
    assert!(s.needs_archive());
    s.archived("/tmp/a".to_string(), 1048576);
    assert!(!s.needs_archive());
    s.archived("/tmp/b".to_string(), 1);
    is(
        &s.metrics(ms(500)),
        &[("import_ms", 500.0), ("import_bytes", 1048576.0), ("import_mb_per_sec", 2.0)],
    );
}

#[test]
fn loops_report_growth() {
    is(
        &RestartLoop::new().metrics(&vec![ms(10), ms(30)], Some(100), Some(40), Some(1), Some(1)),
        &[
            ("restart_cycles_count", 20.0),
            ("restart_cycle_mean_ms", 20.0),
            ("restart_cycle_max_ms", 30.0),
            ("restart_cow_growth_bytes", -60.0),
            ("restart_fd_delta_count", 0.0),
        ],
    );
    is(
        &SnapshotLoop::new().metrics(&vec![ms(10)], None, Some(40)),
        &[
            ("snap_loop_cycles", 20.0),
            ("snap_loop_create_mean_ms", 10.0),
            ("snap_loop_create_max_ms", 10.0),
            ("snap_loop_cow_growth_bytes", 40.0),
        ],
    );
    is(
        &Churn::new().metrics(&vec![ms(10), ms(20)], None, None),
        &[("churn_cycles_count", 50.0), ("cycle_mean_ms", 15.0), ("cycle_max_ms", 20.0)],
    );
    assert_eq!(SnapshotLoop::new().snapshot_name(3, 77), "bench-snap-loop-3-77");
    assert_eq!(Snapshot::new().snapshot_name(5), "bench-snap-5");
}

#[test]
fn soaks_report_the_time_that_passed() {
    is(
        &Soak::new().metrics(ms(61_500), &vec![10, 30, 25], &vec![5], Some(4), Some(9)),
        &[
            ("soak_secs", 61.5),
            ("rss_growth_bytes", 15.0),
            ("rss_max_bytes", 30.0),
            ("cow_growth_bytes", 0.0),
            ("fd_growth_count", 5.0),
        ],
    );
    is(
        &SoakLoad::new().metrics(
            ms(2000),
            &Vec::new(),
            &Vec::new(),
            None,
            None,
            "noise\nworkload_cycles= 12 \nworkload_cycles=99\n",
        ),
        &[("soak_load_secs", 2.0), ("workload_cycles_completed_count", 12.0)],
    );
    assert_eq!(workload_cycles("nothing"), 0);
    assert_eq!(workload_cycles("workload_cycles=x\nworkload_cycles=4"), 0);
    let default = configured_soak_secs(None);
    assert_eq!(configured_soak_secs(Some("0")), default);
    assert_eq!(configured_soak_secs(Some("x")), default);
    assert_eq!(configured_soak_secs(Some("7")), 7);
}

#[test]
fn fixed_setups_are_timed() {
    is(
        &ManyPorts::new().metrics(ms(1), ms(2)),
        &[("many_ports_n", 16.0), ("many_ports_create_ms", 1.0), ("many_ports_start_ms", 2.0)],
    );
    is(
        &VolumesMulti::new().metrics(ms(1), ms(2)),
        &[("volumes_n", 2.0), ("volumes_create_ms", 1.0), ("volumes_start_ms", 2.0)],
    );
    is(
        &RuntimeShutdown::new().metrics(ms(7)),
        &[("shutdown_n_boxes", 3.0), ("shutdown_ms", 7.0)],
    );
    is(
        &Snapshot::new().metrics(ms(7), ms(8)),
        &[("snapshot_create_ms", 7.0), ("snapshot_restore_ms", 8.0)],
    );
    is(
        &RuntimeMetricsPoll::new().metrics(&vec![ms(1), ms(3)]),
        &[
            ("rt_metrics_population", 10.0),
            ("rt_metrics_polls", 500.0),
            ("rt_metrics_mean_us", 2000.0),
            ("rt_metrics_p50_us", 1000.0),
            ("rt_metrics_p99_us", 3000.0),
            ("rt_metrics_max_us", 3000.0),
        ],
    );
}

#[test]
fn ports_and_volumes_are_laid_out() {
    let ports = ManyPorts::new().options().ports;
    assert_eq!(ports.len(), 16);
    let mut v = VolumesMulti::new();
    assert_eq!(v.missing(), 2);
    v.made("/tmp/a".to_string());
    v.made("/tmp/b".to_string());
    assert_eq!(v.missing(), 0);
    let volumes = v.options().volumes;
    assert_eq!(volumes.len(), 2);
    assert_eq!(volumes[0].host_path, "/tmp/a");
    assert_eq!(volumes[1].host_path, "/tmp/b");
}

#[test]
fn sinks_are_fed_in_chunks() {
    assert_eq!(next_chunk(0, 100, 64, true), Sending::Write { bytes: 64 });
    assert_eq!(next_chunk(64, 100, 64, true), Sending::Write { bytes: 36 });
    assert_eq!(next_chunk(100, 100, 64, true), Sending::Finished);
    assert_eq!(next_chunk(64, 100, 64, false), Sending::Stalled);
    is(
        &NetTcpSink::new().metrics(ms(1000)),
        &[
            ("net_tcp_mb_per_sec", 32.0),
            ("net_tcp_bytes", 33554432.0),
            ("net_tcp_wall_ms", 1000.0),
        ],
    );
}

#[test]
fn transfers_without_their_tool_are_skipped() {
    is(&NetIperf3::new().gate(false).unwrap(), &[("iperf3_skipped", 1.0)]);
    assert!(NetIperf3::new().gate(true).is_none());
    assert!(NetIperf3Parallel::new().gate(true).is_none());
    is(&NetIperf3Egress::new().gate(false).unwrap(), &[("iperf3_egress_skipped", 1.0)]);
    assert_eq!(NetUdp::new().gate(false, true), Some(UdpSkip::NoIperf3));
    assert_eq!(NetUdp::new().gate(true, false), Some(UdpSkip::NotForced));
    assert_eq!(NetUdp::new().gate(true, true), None);
    is(&NetUdp::new().skipped_metrics(), &[("udp_skipped", 1.0)]);
    let jailed = LatencyColdStartJailed::new();
    assert_eq!(jailed.gate(false, true), Some(JailedSkip::NoFullIsolation));
    assert_eq!(jailed.gate(true, false), Some(JailedSkip::NoUserNamespaces));
    assert_eq!(jailed.gate(true, true), None);
    is(&jailed.skipped_metrics(), &[("cold_jailed_skipped", 1.0)]);
}

#[test]
fn host_servers_are_killed_at_the_end() {
    let mut s = NetIperf3Egress::new();
    s.server_started(5201);
    s.server_started(5202);
    let lines: Vec<String> = s.leftovers().iter().map(line).collect();
    assert_eq!(lines.len(), 2);
    assert!(lines[0].contains("5201") && lines[1].contains("5202"));
    assert!(s.leftovers().is_empty());
}

#[test]
fn tools_are_installed_until_that_succeeds() {
    let mut s = NetIperf3::new();
    let prepares = |s: &NetIperf3| {
        s.script(5000).steps.iter().filter(|x| matches!(x, Step::Prepare(_))).count()
    };
    assert_eq!(prepares(&s), 1);
    assert_eq!(s.installed(3).unwrap_err(), "apk add iperf3 failed (exit 3)");
    assert_eq!(prepares(&s), 1);
    assert!(s.installed(0).is_ok());
    assert_eq!(prepares(&s), 0);
}

#[test]
fn scripts_create_and_stop_their_box() {
    for script in [
        ColdStart::new().script(),
        WarmStart::new().script(),
        DiskWrite::new().script(),
        ExecLoop::new().script(),
        NetTcpSink::new().script(4000),
        TcpCps::new().script(4000),
        Soak::new().script(60),
        SoakLoad::new().script(60),
        CpuLoad::new().script(),
        MemPressure::new().script(),
        DnsLatency::new().script(),
        MultiVcpu::new().script(),
    ] {
        let created = script.steps.iter().position(|x| matches!(x, Step::Create(_))).unwrap();
        assert!(matches!(script.steps[created + 1], Step::Start));
        assert!(matches!(script.steps.last(), Some(Step::Stop)));
    }
}

#[test]
fn servers_are_waited_for() {
    assert_eq!(readiness(Some(true), true), Readiness::Ready);
    assert_eq!(readiness(Some(false), false), Readiness::Ask);
    assert_eq!(readiness(None, false), Readiness::Ask);
    assert_eq!(readiness(None, true), Readiness::GiveUp);
    assert_eq!(ServeRps::new().url(8100), "http://127.0.0.1:8100/v1/config");
    assert_eq!(RestMetricsRps::new().url("http://h"), "http://h/v1/metrics");
}

#[test]
fn boxes_are_guarded_until_the_work_is_done() {
    let mut guard = BoxGuard::new("b1".to_string());
    assert_eq!(guard.leftover().map(|s| s.as_str()), Some("b1"));
    guard.disarm();
    assert!(guard.leftover().is_none());
    assert_eq!(occupied_bytes(3), 1536);
}

#[test]
fn failed_programs_are_refused_with_their_output() {
    assert_eq!(
        NetIperf3::new().check_client(Some(1), "no route").unwrap_err(),
        "host iperf3 client exited non-zero (Some(1)); stderr:\nno route"
    );
    assert_eq!(
        NetIperf3Parallel::new().check_client(None, "").unwrap_err(),
        "iperf3 -P client exited non-zero (None); stderr:\n"
    );
    assert_eq!(
        NetUdp::new().check_client(Some(-2), "e", "o").unwrap_err(),
        "iperf3 -u client exited non-zero (Some(-2))\nstderr:\ne\nstdout:\no"
    );
    let egress = NetIperf3Egress::new();
    assert_eq!(
        egress.check_server(Some(1)).unwrap_err(),
        "host iperf3 -s -D failed to launch (exit Some(1))"
    );
    assert_eq!(
        egress.check_client(1, "{}").unwrap_err(),
        "in-box iperf3 client exited non-zero (1); stdout:\n{}"
    );
    assert!(egress.check_server(Some(0)).is_ok());
    assert_eq!(
        ExecLoop::new().failure_message(7, "exec wait: gone"),
        "stability-exec-loop: exec #7 failed: exec wait: gone"
    );
}

#[test]
fn staging_happens_once() {
    let mut s = LatencyClone::new();
    assert!(s.source.needs_staging());
    assert!(s.source.leftover().is_none());
    s.source.home.keep("/tmp/h".to_string());
    s.source.staged("box".to_string());
    assert!(!s.source.needs_staging());
    let (home, id) = s.source.leftover().unwrap();
    assert_eq!((home.as_str(), id.as_str()), ("/tmp/h", "box"));
}

#[test]
fn sources_are_staged_once() {
    let mut s = SnapshotLoop::new();
    let acts = s.plan().acts;
    assert_eq!(acts.len(), 9);
    assert!(matches!(acts[0], Act::Create(_)) && matches!(acts[4], Act::Keep));
    assert!(matches!(acts[7], Act::Snapshots { count: 20 }));
    s.source.staged("box".to_string());
    let acts = s.plan().acts;
    assert_eq!(acts.len(), 4);
    assert!(matches!(acts[0], Act::Fetch));

    let mut s = CloneBatch::new();
    assert!(matches!(s.plan().acts[6], Act::Clone { count: 10 }));
    s.source.staged("box".to_string());
    assert_eq!(s.plan().acts.len(), 3);

    let mut s = ThroughputImport::new();
    assert_eq!(s.plan().acts.len(), 8);
    s.archived("/tmp/a".to_string(), 5);
    assert_eq!(s.plan().acts.len(), 2);
}

#[test]
fn stores_are_populated_once() {
    let mut s = InspectList::new();
    assert!(matches!(s.plan().acts[0], Act::Populate { count: 20, start: false, .. }));
    s.created("a".to_string());
    assert_eq!(s.plan().acts.len(), 2);
    let mut s = RuntimeMetricsPoll::new();
    assert!(matches!(s.plan().acts[0], Act::Populate { count: 10, start: true, .. }));
    s.started();
    assert!(matches!(s.plan().acts[0], Act::Poll { times: 500 }));
    let mut s = DensityParallel10::new();
    assert_eq!(s.plan().acts.len(), 5);
    s.warmed();
    assert!(matches!(s.plan().acts[0], Act::Burst { count: 10, .. }));
}

#[test]
fn lookups_create_their_box_first() {
    let mut s = DedupLookup::new();
    assert!(matches!(s.plan().acts[0], Act::LookUp { times: 1, .. }));
    s.created(ms(3));
    let acts = s.plan().acts;
    assert_eq!(acts.len(), 1);
    match &acts[0] {
        Act::LookUp { times, name, .. } => {
            assert_eq!((*times, *name), (100, "bench-dedup-target"));
        }
        act => panic!("{act:?}"),
    }
}
