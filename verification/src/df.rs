//! Disk usage: what the host, the home directory and a garbage collection hold.

use crate::names::texts;
use crate::number::double::Double;
use crate::number::laws::law_integers_keep_order;
use crate::render::{decimal, decimal_text, fixed_text, format_fixed};
use vstd::prelude::*;

verus! {

/// How a report is shown.
#[derive(Debug, Clone, Copy, PartialEq, Eq, Structural)]
pub enum OutputFormat {
    Text,
    Json,
}

/// The arguments of the command.
#[derive(Debug)]
pub struct DfArgs {
    /// Output format: text for people, JSON for scripts.
    pub format: OutputFormat,
}

impl DfArgs {
    /// The arguments when none are given.
    pub fn new() -> (r: DfArgs)
        ensures
            r.format == OutputFormat::Text,
    {
        DfArgs { format: OutputFormat::Text }
    }
}

/// The state of the space that is kept back for recovery.
#[derive(Debug, Clone, Copy, PartialEq, Eq, Structural)]
pub enum ReserveStatus {
    Healthy { bytes: u64 },
    Partial { bytes: u64, expected: u64 },
    Absent,
}

/// The file system that holds the home directory.
#[derive(Debug)]
pub struct HostUsage {
    pub home_dir: String,
    pub total_bytes: u64,
    pub free_bytes: u64,
    pub reserve: ReserveStatus,
}

/// The home directory.
#[derive(Debug, Clone, Copy)]
pub struct HomeUsage {
    pub boxes_bytes: u64,
    pub bases_bytes: u64,
    pub images_bytes: u64,
    pub other_bytes: u64,
    pub total_bytes: u64,
}

/// What a garbage collection removed, or would remove.
#[derive(Debug, Clone, Copy)]
pub struct Reclaimable {
    pub dry_run: bool,
    pub box_dirs_removed: u64,
    pub box_dirs_bytes: u64,
    pub bases_removed: u64,
    pub bases_bytes: u64,
    pub disk_images_removed: u64,
    pub disk_images_bytes: u64,
    pub total_removed: u64,
    pub total_bytes: u64,
}

#[derive(Debug)]
pub struct DiskUsageReport {
    pub host: HostUsage,
    pub home: HomeUsage,
    pub reclaimable: Reclaimable,
}

/// A size in the largest unit of which it holds one: gibibytes with two decimals, mebibytes and
/// kibibytes with one, else bytes.
pub open spec fn human_text(bytes: u64) -> Seq<char> {
    let b = Double::integer(bytes as int);
    if !b.less(Double::integer(1073741824)) {
        fixed_text(b.over(Double::integer(1073741824)), 2) + " GiB"@
    } else if !b.less(Double::integer(1048576)) {
        fixed_text(b.over(Double::integer(1048576)), 1) + " MiB"@
    } else if !b.less(Double::integer(1024)) {
        fixed_text(b.over(Double::integer(1024)), 1) + " KiB"@
    } else {
        decimal(bytes as nat) + " B"@
    }
}

pub fn human(bytes: u64) -> (r: String)
    ensures
        r@ == human_text(bytes),
{
    let b: Double = Double::from_u64(bytes);
    let gib: Double = Double::from_u64(1073741824);
    let mib: Double = Double::from_u64(1048576);
    let kib: Double = Double::from_u64(1024);
    if !b.lt(gib) {
        let mut r: String = format_fixed(b.div(gib), 2);
        r.append(" GiB");
        r
    } else if !b.lt(mib) {
        let mut r: String = format_fixed(b.div(mib), 1);
        r.append(" MiB");
        r
    } else if !b.lt(kib) {
        let mut r: String = format_fixed(b.div(kib), 1);
        r.append(" KiB");
        r
    } else {
        let mut r: String = decimal_text(bytes);
        r.append(" B");
        r
    }
}

/// Which unit a size is shown in depends on the number of bytes alone: below 1024 bytes they are
/// counted, and each larger unit starts where the number of bytes reaches it.
pub proof fn law_human_unit(bytes: u64)
    ensures
        bytes < 1024 ==> human_text(bytes) == decimal(bytes as nat) + " B"@,
        1024 <= bytes < 1048576 ==> human_text(bytes) == fixed_text(
            Double::integer(bytes as int).over(Double::integer(1024)),
            1,
        ) + " KiB"@,
        1048576 <= bytes < 1073741824 ==> human_text(bytes) == fixed_text(
            Double::integer(bytes as int).over(Double::integer(1048576)),
            1,
        ) + " MiB"@,
        1073741824 <= bytes ==> human_text(bytes) == fixed_text(
            Double::integer(bytes as int).over(Double::integer(1073741824)),
            2,
        ) + " GiB"@,
{
    let n = bytes as int;
    if n < 1024 {
        law_integers_keep_order(n, 1024);
    } else {
        law_integers_keep_order(1024, n);
    }
    if n < 1048576 {
        law_integers_keep_order(n, 1048576);
    } else {
        law_integers_keep_order(1048576, n);
    }
    if n < 1073741824 {
        law_integers_keep_order(n, 1073741824);
    } else {
        law_integers_keep_order(1073741824, n);
    }
}

/// The share of a file system that is in use, in per cent with one decimal. Free space beyond the
/// total counts as no use.
pub open spec fn percent_used_text(free: u64, total: u64) -> Seq<char> {
    if total == 0 {
        "n/a"@
    } else {
        let used: int = if free >= total {
            0
        } else {
            total - free
        };
        fixed_text(
            Double::integer(used).over(Double::integer(total as int)).times(Double::integer(100)),
            1,
        ) + "%"@
    }
}

pub fn percent_used(free: u64, total: u64) -> (r: String)
    ensures
        r@ == percent_used_text(free, total),
{
    if total == 0 {
        return "n/a".to_owned();
    }
    let used: u64 = total.saturating_sub(free);
    let share: Double = Double::from_u64(used).div(Double::from_u64(total)).mul(
        Double::from_u64(100),
    );
    let mut r: String = format_fixed(share, 1);
    r.append("%");
    r
}

pub open spec fn reserve_text(reserve: ReserveStatus) -> Seq<char> {
    match reserve {
        ReserveStatus::Healthy { bytes } => "healthy ("@ + human_text(bytes) + ")"@,
        ReserveStatus::Partial { bytes, expected } => "PARTIAL — "@ + human_text(bytes) + " of "@
            + human_text(expected) + " on disk (host was full when last topped up)"@,
        ReserveStatus::Absent =>
            "ABSENT — recovery floor not in place (released, or runtime never booted)"@,
    }
}

/// One line of what can be reclaimed.
pub open spec fn reclaim_text(label: Seq<char>, count: u64, bytes: u64) -> Seq<char> {
    label + decimal(count as nat) + " ("@ + human_text(bytes) + ")"@
}

/// One labelled size.
pub open spec fn size_text(label: Seq<char>, bytes: u64) -> Seq<char> {
    label + human_text(bytes)
}

/// The lines on the host.
pub open spec fn host_text(host: HostUsage) -> Seq<Seq<char>> {
    seq![
        "Host filesystem ("@ + host.home_dir@ + "):"@,
        "  total: "@ + human_text(host.total_bytes) + "    free: "@ + human_text(host.free_bytes)
            + "    used: "@ + percent_used_text(host.free_bytes, host.total_bytes),
        "  reserve: "@ + reserve_text(host.reserve),
    ]
}

/// The lines on the home directory.
pub open spec fn home_text(home: HomeUsage) -> Seq<Seq<char>> {
    seq![
        "~/.boxlite/ footprint:"@,
        size_text("  boxes:  "@, home.boxes_bytes),
        size_text("  bases:  "@, home.bases_bytes),
        size_text("  images: "@, home.images_bytes),
        size_text("  other:  "@, home.other_bytes),
        size_text("  total:  "@, home.total_bytes),
    ]
}

/// The lines on what can be reclaimed.
pub open spec fn reclaimable_text(r: Reclaimable) -> Seq<Seq<char>> {
    seq![
        "Reclaimable via `boxlite gc`:"@,
        reclaim_text("  orphan box dirs:    "@, r.box_dirs_removed, r.box_dirs_bytes),
        reclaim_text("  orphan bases:       "@, r.bases_removed, r.bases_bytes),
        reclaim_text("  orphan disk-images: "@, r.disk_images_removed, r.disk_images_bytes),
        reclaim_text("  total:              "@, r.total_removed, r.total_bytes),
    ]
}

/// The lines of a report: three blocks with an empty line between them.
pub open spec fn report_text(r: DiskUsageReport) -> Seq<Seq<char>> {
    host_text(r.host) + seq![Seq::empty()] + home_text(r.home) + seq![Seq::empty()]
        + reclaimable_text(r.reclaimable)
}

fn reserve_line(reserve: ReserveStatus) -> (r: String)
    ensures
        r@ == "  reserve: "@ + reserve_text(reserve),
{
    let mut r: String = "  reserve: ".to_owned();
    let ghost start = r@;
    match reserve {
        ReserveStatus::Healthy { bytes } => {
            r.append("healthy (");
            r.append(human(bytes).as_str());
            r.append(")");
        },
        ReserveStatus::Partial { bytes, expected } => {
            r.append("PARTIAL — ");
            r.append(human(bytes).as_str());
            r.append(" of ");
            r.append(human(expected).as_str());
            r.append(" on disk (host was full when last topped up)");
        },
        ReserveStatus::Absent => {
            r.append("ABSENT — recovery floor not in place (released, or runtime never booted)");
        },
    }
    assert(r@ =~= start + reserve_text(reserve));
    r
}

fn reclaim_line(label: &str, count: u64, bytes: u64) -> (r: String)
    ensures
        r@ == reclaim_text(label@, count, bytes),
{
    let mut r: String = label.to_owned();
    r.append(decimal_text(count).as_str());
    r.append(" (");
    r.append(human(bytes).as_str());
    r.append(")");
    r
}

fn size_line(label: &str, bytes: u64) -> (r: String)
    ensures
        r@ == size_text(label@, bytes),
{
    let mut r: String = label.to_owned();
    r.append(human(bytes).as_str());
    r
}

fn space_line(host: &HostUsage) -> (r: String)
    ensures
        r@ == host_text(*host)[1],
{
    let mut r: String = "  total: ".to_owned();
    r.append(human(host.total_bytes).as_str());
    r.append("    free: ");
    r.append(human(host.free_bytes).as_str());
    r.append("    used: ");
    r.append(percent_used(host.free_bytes, host.total_bytes).as_str());
    r
}

/// A report in lines of text.
pub fn text_lines(report: &DiskUsageReport) -> (r: Vec<String>)
    ensures
        texts(r@) == report_text(*report),
{
    let mut head: String = "Host filesystem (".to_owned();
    head.append(report.host.home_dir.as_str());
    head.append("):");
    let mut r: Vec<String> = Vec::new();
    r.push(head);
    r.push(space_line(&report.host));
    r.push(reserve_line(report.host.reserve));
    r.push(String::new());
    r.push("~/.boxlite/ footprint:".to_owned());
    r.push(size_line("  boxes:  ", report.home.boxes_bytes));
    r.push(size_line("  bases:  ", report.home.bases_bytes));
    r.push(size_line("  images: ", report.home.images_bytes));
    r.push(size_line("  other:  ", report.home.other_bytes));
    r.push(size_line("  total:  ", report.home.total_bytes));
    r.push(String::new());
    r.push("Reclaimable via `boxlite gc`:".to_owned());
    let c: &Reclaimable = &report.reclaimable;
    r.push(reclaim_line("  orphan box dirs:    ", c.box_dirs_removed, c.box_dirs_bytes));
    r.push(reclaim_line("  orphan bases:       ", c.bases_removed, c.bases_bytes));
    r.push(reclaim_line("  orphan disk-images: ", c.disk_images_removed, c.disk_images_bytes));
    r.push(reclaim_line("  total:              ", c.total_removed, c.total_bytes));
    assert(texts(r@) =~= report_text(*report));
    r
}

/// The host in the machine-readable form of a report.
#[derive(Debug)]
pub struct JsonHost {
    pub home_dir: String,
    pub total_bytes: u64,
    pub free_bytes: u64,
    pub reserve: ReserveStatus,
}

/// What can be reclaimed, in the machine-readable form of a report.
#[derive(Debug, Clone, Copy)]
pub struct JsonReclaim {
    pub dry_run: bool,
    pub box_dirs_removed: u64,
    pub box_dirs_bytes: u64,
    pub bases_removed: u64,
    pub bases_bytes: u64,
    pub disk_images_removed: u64,
    pub disk_images_bytes: u64,
    pub total_bytes: u64,
}

/// The machine-readable form of a report, which leaves out the total count.
#[derive(Debug)]
pub struct JsonView {
    pub host: JsonHost,
    pub home: HomeUsage,
    pub reclaimable: JsonReclaim,
}

pub fn json_view(r: &DiskUsageReport) -> (v: JsonView)
    ensures
        v.host.home_dir@ == r.host.home_dir@,
        v.host.total_bytes == r.host.total_bytes,
        v.host.free_bytes == r.host.free_bytes,
        v.host.reserve == r.host.reserve,
        v.home == r.home,
        v.reclaimable.dry_run == r.reclaimable.dry_run,
        v.reclaimable.box_dirs_removed == r.reclaimable.box_dirs_removed,
        v.reclaimable.box_dirs_bytes == r.reclaimable.box_dirs_bytes,
        v.reclaimable.bases_removed == r.reclaimable.bases_removed,
        v.reclaimable.bases_bytes == r.reclaimable.bases_bytes,
        v.reclaimable.disk_images_removed == r.reclaimable.disk_images_removed,
        v.reclaimable.disk_images_bytes == r.reclaimable.disk_images_bytes,
        v.reclaimable.total_bytes == r.reclaimable.total_bytes,
{
    JsonView {
        host: JsonHost {
            home_dir: r.host.home_dir.clone(),
            total_bytes: r.host.total_bytes,
            free_bytes: r.host.free_bytes,
            reserve: r.host.reserve,
        },
        home: r.home,
        reclaimable: JsonReclaim {
            dry_run: r.reclaimable.dry_run,
            box_dirs_removed: r.reclaimable.box_dirs_removed,
            box_dirs_bytes: r.reclaimable.box_dirs_bytes,
            bases_removed: r.reclaimable.bases_removed,
            bases_bytes: r.reclaimable.bases_bytes,
            disk_images_removed: r.reclaimable.disk_images_removed,
            disk_images_bytes: r.reclaimable.disk_images_bytes,
            total_bytes: r.reclaimable.total_bytes,
        },
    }
}

} // verus!
