//! What `dd`, `fio` and `iperf3` print, and what the host says about itself.

use boxlite_cli::bench::host_info::{
    read_cpu_model, read_kernel, read_mem_total_bytes, HostInfo, HostSources,
};
use boxlite_cli::bench::scenarios::common::Metrics;
use boxlite_cli::bench::scenarios::dd::{dd_mb_per_sec, dd_rate};
use boxlite_cli::bench::scenarios::fio::{parse_fio_json, parse_fio_read_json, FioError};
use boxlite_cli::bench::scenarios::iperf3::{
    parse_iperf3_egress_json, parse_iperf3_json, parse_iperf3_parallel_json,
    parse_iperf3_udp_json, Iperf3Error, Transfer,
};
use boxlite_cli::json::parse;
use boxlite_cli::number::double::Double;

fn f(x: Double) -> f64 {
    f64::from_bits(x.to_bits())
}

fn at(m: &Metrics, name: &str) -> f64 {
    f(*m.get(name).expect(name))
}

fn parse_dd_mb_per_sec(text: &str) -> Option<f64> {
    let rate = dd_rate(text)?;
    let number = rate.number.parse::<f64>().ok().map(|x| Double::from_bits(x.to_bits()));
    dd_mb_per_sec(&rate, number).map(f)
}

#[test]
fn parse_gnu_dd_mb_per_sec() {
    let out = "67108864 bytes (67 MB, 64 MiB) copied, 0.123 s, 545 MB/s\n";
    assert_eq!(parse_dd_mb_per_sec(out).unwrap(), 545.0);
}

#[test]
fn parse_busybox_dd_mb_per_sec() {
    let out = "67108864 bytes (64.0MB) copied, 0.123 seconds, 540.0MB/s\n";
    let v = parse_dd_mb_per_sec(out).unwrap();
    assert!((v - 540.0).abs() < 1e-9, "got {v}, expected 540.0");
}

#[test]
fn parse_gb_per_sec_normalizes_to_mb() {
    let out = "67108864 bytes copied, 0.001 s, 2.5 GB/s\n";
    let v = parse_dd_mb_per_sec(out).unwrap();
    assert!(
        (v - 2.5 * 1024.0).abs() < 1e-9,
        "got {v}, expected {}",
        2.5 * 1024.0
    );
}

#[test]
fn parse_unparseable_errors() {
    assert!(parse_dd_mb_per_sec("").is_none());
    assert!(parse_dd_mb_per_sec("no rate here").is_none());
}

#[test]
fn parse_dd_mb_per_sec_handles_busybox_and_gnu() {
    assert_eq!(
        parse_dd_mb_per_sec("67108864 bytes (67 MB, 64 MiB) copied, 0.05 s, 1300 MB/s\n").unwrap(),
        1300.0
    );
    assert_eq!(
        parse_dd_mb_per_sec("67108864 bytes (64.0MB) copied, 0.05 seconds, 1300.0MB/s\n").unwrap(),
        1300.0
    );
}

#[test]
fn the_last_dd_line_with_a_unit_decides() {
    assert_eq!(parse_dd_mb_per_sec("copied, 10 MB/s\ncopied, 20 MB/s\n"), Some(20.0));
    assert_eq!(parse_dd_mb_per_sec("copied, 10 MB/s\ncopied, fast MB/s\n"), None);
    assert_eq!(parse_dd_mb_per_sec("0.1 s, 10 MB/s\nbad MB/s\n"), None);
    assert_eq!(parse_dd_mb_per_sec("copied, 10 MB/s\n2+0 records out\n"), Some(10.0));
    assert_eq!(parse_dd_mb_per_sec("MB/s"), None);
    assert_eq!(parse_dd_mb_per_sec("copied, 512 kB/s\r\n"), Some(0.5));
    assert_eq!(parse_dd_mb_per_sec("1 MB/s then 3 MB/s"), Some(3.0));
}

#[test]
fn parse_fio_json_extracts_headline_metrics() {
    let sample = r#"{
            "jobs": [{
                "write": {
                    "iops": 12345.6,
                    "bw": 49382,
                    "clat_ns": {
                        "percentile": {
                            "50.000000": 8100,
                            "99.000000": 42000,
                            "99.900000": 180000
                        }
                    }
                }
            }]
        }"#;
    let m = parse_fio_json(sample).expect("parse");
    assert_eq!(at(&m, "disk_fio_iops_per_sec"), 12345.6);
    assert_eq!(at(&m, "disk_fio_bw_kb_per_sec"), 49382.0);
    assert_eq!(at(&m, "disk_fio_clat_p50_ns"), 8100.0);
    assert_eq!(at(&m, "disk_fio_clat_p99_ns"), 42000.0);
    assert_eq!(at(&m, "disk_fio_clat_p999_ns"), 180000.0);
}

#[test]
fn parse_fio_json_errors_on_missing_field() {
    let sample = r#"{
            "jobs": [{
                "write": {
                    "bw": 49382,
                    "clat_ns": { "percentile": {
                        "50.000000": 0, "99.000000": 0, "99.900000": 0
                    } }
                }
            }]
        }"#;
    assert!(parse_fio_json(sample).is_err());
}

#[test]
fn parse_fio_read_json_extracts_headlines() {
    let sample = r#"{
            "jobs": [{
                "read": {
                    "iops": 50000.5,
                    "bw": 200000,
                    "clat_ns": {
                        "percentile": {
                            "50.000000": 10000,
                            "99.000000": 50000,
                            "99.900000": 200000
                        }
                    }
                }
            }]
        }"#;
    let m = parse_fio_read_json(sample).unwrap();
    assert_eq!(at(&m, "disk_read_fio_iops_per_sec"), 50000.5);
    assert_eq!(at(&m, "disk_read_fio_bw_kb_per_sec"), 200000.0);
    assert_eq!(at(&m, "disk_read_fio_clat_p99_ns"), 50000.0);
}

#[test]
fn parse_iperf3_json_extracts_headline_metrics() {
    let sample = r#"{
            "end": {
                "streams": [{
                    "sender": { "retransmits": 12 }
                }],
                "sum_received": {
                    "seconds": 5.000123,
                    "bits_per_second": 1234567890.5
                }
            }
        }"#;
    let m = parse_iperf3_json(sample).expect("parse");
    assert_eq!(at(&m, "iperf3_bits_per_sec"), 1234567890.5);
    assert_eq!(at(&m, "iperf3_duration_secs"), 5.000123);
    assert_eq!(at(&m, "iperf3_retransmits_count"), 12.0);
}

#[test]
fn parse_iperf3_json_defaults_retransmits_when_missing() {
    let sample = r#"{
            "end": {
                "streams": [{ "sender": {} }],
                "sum_received": {
                    "seconds": 5.0,
                    "bits_per_second": 1.0
                }
            }
        }"#;
    let m = parse_iperf3_json(sample).expect("parse");
    assert_eq!(at(&m, "iperf3_retransmits_count"), 0.0);
}

#[test]
fn parse_iperf3_json_errors_on_missing_bps() {
    let sample = r#"{ "end": { "sum_received": { "seconds": 5.0 } } }"#;
    assert!(parse_iperf3_json(sample).is_err());
}

#[test]
fn parse_parallel_json_aggregates_streams() {
    let sample = r#"{
            "end": {
                "sum_received": {
                    "bits_per_second": 1000000000.0,
                    "seconds": 5.0
                },
                "streams": [
                    { "receiver": { "bits_per_second": 400000000.0 },
                      "sender": { "retransmits": 1 } },
                    { "receiver": { "bits_per_second": 600000000.0 },
                      "sender": { "retransmits": 2 } }
                ]
            }
        }"#;
    let m = parse_iperf3_parallel_json(sample).unwrap();
    assert_eq!(at(&m, "parallel_iperf3_bits_per_sec"), 1_000_000_000.0);
    assert_eq!(at(&m, "parallel_iperf3_per_stream_mean_bps"), 500_000_000.0);
    assert!((at(&m, "parallel_iperf3_per_stream_stdev_bps") - 141_421_356.24).abs() < 1.0);
    assert_eq!(at(&m, "parallel_iperf3_retransmits_count"), 3.0);
    assert_eq!(at(&m, "parallel_iperf3_streams_count"), 2.0);
}

#[test]
fn parse_udp_json_extracts_loss() {
    let sample = r#"{
            "end": {
                "sum": {
                    "bits_per_second": 950000000.0,
                    "seconds": 5.0,
                    "lost_percent": 0.05
                }
            }
        }"#;
    let m = parse_iperf3_udp_json(sample).unwrap();
    assert_eq!(at(&m, "udp_bits_per_sec"), 950000000.0);
    assert_eq!(at(&m, "udp_loss_pct"), 0.05);
    assert_eq!(at(&m, "udp_duration_secs"), 5.0);
}

#[test]
fn parse_udp_json_defaults_loss_when_missing() {
    let sample = r#"{
            "end": { "sum": { "bits_per_second": 1.0, "seconds": 5.0 } }
        }"#;
    let m = parse_iperf3_udp_json(sample).unwrap();
    assert_eq!(at(&m, "udp_loss_pct"), 0.0);
}

#[test]
fn every_missing_iperf3_value_has_its_error() {
    let no_end = Iperf3Error::NoEnd;
    assert_eq!(parse_iperf3_json("not json").err(), Some(Iperf3Error::NotJson));
    assert_eq!(parse_iperf3_json("{}").err(), Some(no_end));
    assert_eq!(parse_iperf3_json(r#"{"end": {}}"#).err(), Some(Iperf3Error::NoSum));
    assert_eq!(
        parse_iperf3_egress_json(r#"{"end": {"sum_received": {"seconds": 1}}}"#).err(),
        Some(Iperf3Error::NoBitsPerSecond)
    );
    assert_eq!(
        parse_iperf3_udp_json(r#"{"end": {"sum": {"bits_per_second": 1}}}"#).err(),
        Some(Iperf3Error::NoSeconds)
    );
    assert_eq!(
        parse_iperf3_parallel_json(
            r#"{"end": {"sum_received": {"bits_per_second": 1, "seconds": 1}}}"#
        )
        .err(),
        Some(Iperf3Error::NoStreams)
    );
    assert_eq!(no_end.message(Transfer::Ingress), ".end missing in iperf3 output");
    assert_eq!(no_end.message(Transfer::Udp), ".end missing");
    assert_eq!(Iperf3Error::NoSum.message(Transfer::Udp), ".end.sum missing (UDP path)");
    assert_eq!(Iperf3Error::NoSum.message(Transfer::Egress), ".end.sum_received missing");
    assert_eq!(Iperf3Error::NotJson.message(Transfer::Udp), "iperf3 -u JSON parse");
    assert_eq!(Iperf3Error::NoStreams.message(Transfer::Parallel), ".end.streams missing");
}

#[test]
fn fio_reports_that_are_no_json_are_refused() {
    assert_eq!(parse_fio_json("").err(), Some(FioError::NotJson));
    assert_eq!(parse_fio_read_json("[1,").err(), Some(FioError::NotJson));
}

#[test]
fn json_documents_are_read_as_trees() {
    let v = parse(r#"{"a": [1, 2.5, "x"], "a2": null, "b": {"c": -3}}"#).expect("valid");
    let list = v.get("a").unwrap().as_array().unwrap();
    assert_eq!(list.len(), 3);
    assert_eq!(f(list[1].as_number().unwrap()), 2.5);
    assert!(list[2].as_number().is_none());
    assert_eq!(f(v.get("b").unwrap().number("c").unwrap()), -3.0);
    assert_eq!(f(v.first("a").unwrap().as_number().unwrap()), 1.0);
    assert!(v.get("missing").is_none());
    assert!(v.first("b").is_none());
    assert!(parse("{").is_none());
    assert!(parse("1 2").is_none());
}

#[test]
fn json_members_that_repeat_keep_the_last() {
    let v = parse(r#"{"a": 1, "a": 2}"#).expect("valid");
    assert_eq!(f(v.number("a").unwrap()), 2.0);
}

fn linux() -> HostSources {
    HostSources {
        osrelease: Some("6.1.0-13-amd64\n".to_string()),
        ostype: Some("Linux\n".to_string()),
        arch: "x86_64".to_string(),
        cpuinfo: Some(
            "processor\t: 0\nvendor_id\t: GenuineIntel\nmodel name\t: Intel(R) Xeon(R) CPU\n"
                .to_string(),
        ),
        cpu_count: 8,
        meminfo: Some("MemTotal:       32594476 kB\nMemFree:        1026400 kB\n".to_string()),
    }
}

#[test]
fn snapshot_populates_every_field_on_linux() {
    let h = HostInfo::snapshot(&linux());
    assert!(!h.kernel.is_empty(), "/proc/sys/kernel/osrelease readable");
    assert!(!h.arch.is_empty(), "ARCH known at compile time");
    assert!(h.cpu_count > 0, "available_parallelism returned 0");
    assert!(h.mem_total_bytes > 0, "/proc/meminfo MemTotal returned 0");
    assert_eq!(h.kernel, "Linux 6.1.0-13-amd64");
    assert_eq!(h.arch, "x86_64");
    assert_eq!(h.cpu_model, "Intel(R) Xeon(R) CPU");
    assert_eq!(h.cpu_count, 8);
    assert_eq!(h.mem_total_bytes, 32594476 * 1024);
}

#[test]
fn snapshot_leaves_unknown_fields_empty() {
    let mut sources = linux();
    sources.ostype = None;
    sources.cpuinfo = Some("Hardware : board\n".to_string());
    sources.meminfo = None;
    let h = HostInfo::snapshot(&sources);
    assert_eq!(h.kernel, "");
    assert_eq!(h.cpu_model, "");
    assert_eq!(h.mem_total_bytes, 0);
}

#[test]
fn host_files_are_read_line_by_line() {
    assert_eq!(
        read_kernel(&Some(" Linux ".to_string()), &Some("5\n".to_string())).as_deref(),
        Some("Linux 5")
    );
    assert_eq!(read_kernel(&None, &Some("5".to_string())), None);
    assert_eq!(read_cpu_model("model name : A\nmodel name : B\n").as_deref(), Some("A"));
    assert_eq!(read_cpu_model("").as_deref(), None);
    assert_eq!(read_mem_total_bytes("MemTotal: 2 kB"), Some(2048));
    assert_eq!(read_mem_total_bytes("MemTotal: x kB"), None);
    assert_eq!(read_mem_total_bytes("MemFree: 2 kB"), None);
}
