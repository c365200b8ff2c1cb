//! Disk usage, the reserve and pulls.

use boxlite_cli::df::{
    human, json_view, percent_used, text_lines, DfArgs, DiskUsageReport, HomeUsage, HostUsage,
    OutputFormat, Reclaimable, ReserveStatus,
};
use boxlite_cli::pull::{pulled_lines, Pulled};
use boxlite_cli::reserve::{human_bytes, release_message};

#[test]
fn sizes_are_shown_in_the_largest_unit() {
    assert_eq!(human(0), "0 B");
    assert_eq!(human(1023), "1023 B");
    assert_eq!(human(1024), "1.0 KiB");
    assert_eq!(human(1536), "1.5 KiB");
    assert_eq!(human(1024 * 1024 - 1), "1024.0 KiB");
    assert_eq!(human(1024 * 1024), "1.0 MiB");
    assert_eq!(human(1024 * 1024 * 1024 - 1), "1024.0 MiB");
    assert_eq!(human(1024 * 1024 * 1024), "1.00 GiB");
    assert_eq!(human(5_000_000_000), "4.66 GiB");
    assert_eq!(human(u64::MAX), "17179869184.00 GiB");
}

#[test]
fn released_sizes_are_never_below_mebibytes() {
    assert_eq!(human_bytes(64 * 1024 * 1024), "64.0 MiB");
    assert_eq!(human_bytes(1), "0.0 MiB");
    assert_eq!(human_bytes(1024 * 1024 * 1024), "1.00 GiB");
    assert_eq!(human_bytes(3 * 512 * 1024 * 1024), "1.50 GiB");
}

#[test]
fn shares_are_in_per_cent() {
    assert_eq!(percent_used(0, 0), "n/a");
    assert_eq!(percent_used(0, 10), "100.0%");
    assert_eq!(percent_used(10, 10), "0.0%");
    assert_eq!(percent_used(20, 10), "0.0%");
    assert_eq!(percent_used(2, 3), "33.3%");
    assert_eq!(percent_used(u64::MAX, 0), "n/a");
}

fn report(reserve: ReserveStatus) -> DiskUsageReport {
    DiskUsageReport {
        host: HostUsage {
            home_dir: "/home/u/.boxlite".to_string(),
            total_bytes: 4 * 1024 * 1024 * 1024,
            free_bytes: 1024 * 1024 * 1024,
            reserve,
        },
        home: HomeUsage {
            boxes_bytes: 1,
            bases_bytes: 2048,
            images_bytes: 3 * 1024 * 1024,
            other_bytes: 0,
            total_bytes: 3 * 1024 * 1024 + 2049,
        },
        reclaimable: Reclaimable {
            dry_run: true,
            box_dirs_removed: 1,
            box_dirs_bytes: 10,
            bases_removed: 2,
            bases_bytes: 20,
            disk_images_removed: 3,
            disk_images_bytes: 30,
            total_removed: 6,
            total_bytes: 60,
        },
    }
}

#[test]
fn reports_have_three_blocks() {
    let lines = text_lines(&report(ReserveStatus::Healthy { bytes: 64 * 1024 * 1024 }));
    assert_eq!(
        lines,
        vec![
            "Host filesystem (/home/u/.boxlite):",
            "  total: 4.00 GiB    free: 1.00 GiB    used: 75.0%",
            "  reserve: healthy (64.0 MiB)",
            "",
            "~/.boxlite/ footprint:",
            "  boxes:  1 B",
            "  bases:  2.0 KiB",
            "  images: 3.0 MiB",
            "  other:  0 B",
            "  total:  3.0 MiB",
            "",
            "Reclaimable via `boxlite gc`:",
            "  orphan box dirs:    1 (10 B)",
            "  orphan bases:       2 (20 B)",
            "  orphan disk-images: 3 (30 B)",
            "  total:              6 (60 B)",
        ]
    );
}

#[test]
fn reports_tell_the_state_of_the_reserve() {
    let lines = text_lines(&report(ReserveStatus::Partial { bytes: 1024, expected: 2048 }));
    assert_eq!(
        lines[2],
        "  reserve: PARTIAL — 1.0 KiB of 2.0 KiB on disk (host was full when last topped up)"
    );
    let lines = text_lines(&report(ReserveStatus::Absent));
    assert_eq!(
        lines[2],
        "  reserve: ABSENT — recovery floor not in place (released, or runtime never booted)"
    );
}

#[test]
fn machine_readable_reports_hold_the_same_numbers() {
    let v = json_view(&report(ReserveStatus::Absent));
    assert_eq!(v.host.home_dir, "/home/u/.boxlite");
    assert_eq!(v.host.reserve, ReserveStatus::Absent);
    assert_eq!(v.home.bases_bytes, 2048);
    assert!(v.reclaimable.dry_run);
    assert_eq!(v.reclaimable.disk_images_removed, 3);
    assert_eq!(v.reclaimable.total_bytes, 60);
    assert_eq!(DfArgs::new().format, OutputFormat::Text);
}

#[test]
fn releases_are_answered() {
    assert_eq!(
        release_message(0, "/h", "/h/.reserve"),
        "Reserve already released (or never created at /h)."
    );
    assert_eq!(
        release_message(64 * 1024 * 1024, "/h", "/h/.reserve"),
        "Released 64.0 MiB from /h/.reserve; run `boxlite gc` / `boxlite rm -f <box>` \
         to reclaim more. The reserve will be recreated automatically \
         on the next runtime start."
    );
}

#[test]
fn pulls_are_reported() {
    let remote = Pulled::Remote { reference: "alpine".to_string(), id: "sha256:1".to_string() };
    assert_eq!(pulled_lines(&remote, true), vec!["sha256:1"]);
    assert_eq!(pulled_lines(&remote, false), vec!["Pulled: alpine", "ID: sha256:1"]);
    let local = Pulled::Local {
        reference: "alpine".to_string(),
        config_digest: "sha256:2".to_string(),
        layer_count: 3,
    };
    assert_eq!(pulled_lines(&local, true), vec!["sha256:2"]);
    assert_eq!(
        pulled_lines(&local, false),
        vec!["Pulled: alpine", "Digest: sha256:2", "Layers: 3"]
    );
}
