//! What several scenarios share: boxes and commands, and the metrics that are computed alike.

use crate::bench::clock::Span;
use crate::names::{texts, NameMap};
use crate::number::double::Double;
use crate::number::error::{
    distance, law_difference_is_rounded, law_integer_is_rounded, law_quotient_is_rounded,
    lemma_near_back, lemma_near_chain, lemma_near_divides, lemma_near_scales, lemma_nearest_finite,
    lemma_within_range, near, size,
};
use crate::number::laws::{law_integers_are_exact, law_order_is_numeric, lemma_units_zero};
use crate::number::rounding::{lemma_large_powers, nearest_magnitude};
use crate::number::single::Single;
use crate::number::single_error::{
    law_single_integer_is_rounded, law_single_quotient_is_rounded, law_single_sum_is_rounded,
    law_widening_is_rounded, lemma_single_units_not_negative, single_finite,
};
use crate::parts::law_numbers_are_read_back;
use crate::render::{decimal, decimal_chars, decimal_text};
use crate::text::{parsed_i32, string_of};
use vstd::arithmetic::power2::{
    lemma2_to64, lemma_pow2_adds, lemma_pow2_pos, lemma_pow2_strictly_increases, lemma_pow2_unfold,
    pow2,
};
use vstd::prelude::*;

verus! {

/// The image of every scenario that asks for no other.
pub const DEFAULT_IMAGE: &'static str = "alpine:latest";

/// The metrics of one sample.
pub type Metrics = NameMap<Double>;

/// No metrics.
pub open spec fn none() -> Map<Seq<char>, Double> {
    Map::empty()
}

/// `m` and the metric `name`, where it has a value.
pub open spec fn with_some(m: Map<Seq<char>, Double>, name: Seq<char>, value: Option<Double>) -> Map<
    Seq<char>,
    Double,
> {
    match value {
        Some(x) => m.insert(name, x),
        None => m,
    }
}

pub fn add_some(m: Metrics, name: &str, value: Option<Double>) -> (r: Metrics)
    ensures
        r@ == with_some(m@, name@, value),
{
    match value {
        Some(x) => m.with(name, x),
        None => m,
    }
}

/// The metrics of a sample that was skipped: the marker `name`, set to one.
pub fn skipped(name: &str) -> (r: Metrics)
    ensures
        r@ == none().insert(name@, Double::integer(1)),
{
    NameMap::new().with(name, Double::from_u64(1))
}

pub fn count(n: usize) -> (r: Double)
    ensures
        r == Double::integer(n as int),
{
    Double::from_u64(n as u64)
}

/// An integer in decimal.
pub open spec fn integer_text(n: int) -> Seq<char> {
    if n < 0 {
        "-"@ + decimal((-n) as nat)
    } else {
        decimal(n as nat)
    }
}

pub fn format_integer(n: i64) -> (r: String)
    ensures
        r@ == integer_text(n as int),
{
    if n < 0 {
        let m: u64 = (-(n + 1)) as u64 + 1;
        let mut r: String = "-".to_owned();
        r.append(decimal_text(m).as_str());
        r
    } else {
        decimal_text(n as u64)
    }
}

/// A program and its arguments.
#[derive(Debug, Clone)]
pub struct Command {
    pub program: String,
    pub args: Vec<String>,
}

/// A `Command` as text.
#[verifier::ext_equal]
pub struct CommandView {
    pub program: Seq<char>,
    pub args: Seq<Seq<char>>,
}

impl Command {
    pub open spec fn view(self) -> CommandView {
        CommandView { program: self.program@, args: texts(self.args@) }
    }

    pub fn new(program: &str) -> (r: Command)
        ensures
            r@ == (CommandView { program: program@, args: Seq::empty() }),
    {
        let r = Command { program: program.to_owned(), args: Vec::new() };
        assert(texts(r.args@) =~= Seq::empty());
        r
    }

    pub fn arg(self, text: &str) -> (r: Command)
        ensures
            r@ == (CommandView { program: self@.program, args: self@.args.push(text@) }),
    {
        let Command { program, args } = self;
        let ghost before = texts(args@);
        let mut args = args;
        args.push(text.to_owned());
        assert(texts(args@) =~= before.push(text@));
        Command { program, args }
    }
}

/// `dd` writing `mib` mebibytes of zeroes to `path` and flushing them.
pub open spec fn zero_fill(path: Seq<char>, mib: nat) -> CommandView {
    CommandView {
        program: "dd"@,
        args: seq![
            "if=/dev/zero"@,
            "of="@ + path,
            "bs=1M"@,
            "count="@ + decimal(mib),
            "conv=fsync"@,
        ],
    }
}

pub fn zero_fill_command(path: &str, mib: u32) -> (r: Command)
    ensures
        r@ == zero_fill(path@, mib as nat),
{
    let mut of: String = "of=".to_owned();
    of.append(path);
    let mut size: String = "count=".to_owned();
    size.append(decimal_text(mib as u64).as_str());
    Command::new("dd").arg("if=/dev/zero").arg(of.as_str()).arg("bs=1M").arg(size.as_str()).arg(
        "conv=fsync",
    )
}

/// `apk` installing a package inside the box.
pub open spec fn install(package: Seq<char>) -> CommandView {
    CommandView { program: "apk"@, args: seq!["add"@, "--no-cache"@, package] }
}

pub fn install_command(package: &str) -> (r: Command)
    ensures
        r@ == install(package@),
{
    Command::new("apk").arg("add").arg("--no-cache").arg(package)
}

/// Refuses an exit code other than zero with `before`, the code and `after`.
pub fn check_exit(code: i32, before: &str, after: &str) -> (r: Result<(), String>)
    ensures
        match r {
            Ok(()) => code == 0,
            Err(text) => code != 0 && text@ == before@ + integer_text(code as int) + after@,
        },
{
    if code == 0 {
        Ok(())
    } else {
        let mut text: String = before.to_owned();
        text.append(format_integer(code as i64).as_str());
        text.append(after);
        Err(text)
    }
}

/// The exit code of a program of the host, which has none where a signal ended it.
pub open spec fn code_text(code: Option<i32>) -> Seq<char> {
    match code {
        Some(n) => "Some("@ + integer_text(n as int) + ")"@,
        None => "None"@,
    }
}

/// Refuses a program of the host that did not succeed with `before`, its exit code and `after`.
pub fn check_status(code: Option<i32>, before: &str, after: &str) -> (r: Result<(), String>)
    ensures
        match r {
            Ok(()) => code == Some(0i32),
            Err(text) => code != Some(0i32) && text@ == before@ + code_text(code) + after@,
        },
{
    let mut text: String = before.to_owned();
    match code {
        Some(n) => {
            if n == 0 {
                return Ok(());
            }
            text.append("Some(");
            text.append(format_integer(n as i64).as_str());
            text.append(")");
        },
        None => {
            text.append("None");
        },
    }
    assert(text@ =~= before@ + code_text(code));
    text.append(after);
    Err(text)
}

/// The transport protocol of a forwarded port.
#[derive(Clone, Copy, Debug, PartialEq, Eq, Structural)]
pub enum Protocol {
    Tcp,
    Udp,
}

/// A port of the host that is forwarded to the guest. Without a host port the system picks one.
#[derive(Clone, Copy, Debug, PartialEq, Eq, Structural)]
pub struct Port {
    pub host: Option<u16>,
    pub guest: u16,
    pub protocol: Protocol,
}

/// A directory of the host that is mounted in the guest.
#[derive(Debug, Clone)]
pub struct Volume {
    pub host_path: String,
    pub guest_path: String,
    pub read_only: bool,
}

/// How a box is watched. All times are in milliseconds.
#[derive(Clone, Copy, Debug, PartialEq, Eq, Structural)]
pub struct HealthCheck {
    pub interval_ms: u64,
    pub timeout_ms: u64,
    pub retries: u32,
    pub start_period_ms: u64,
}

/// What a box is created with. Everything that is not mentioned is left at its default.
#[derive(Debug, Clone)]
pub struct BoxSpec {
    pub image: String,
    /// Whether the box is removed when it stops.
    pub auto_remove: bool,
    /// Whether the box has a network.
    pub network: bool,
    /// Whether the box is isolated as strictly as possible.
    pub max_isolation: bool,
    pub cpus: Option<u8>,
    pub memory_mib: Option<u32>,
    pub ports: Vec<Port>,
    pub volumes: Vec<Volume>,
    pub health_check: Option<HealthCheck>,
}

/// A `BoxSpec` in plain values.
#[verifier::ext_equal]
pub struct BoxSpecView {
    pub image: Seq<char>,
    pub auto_remove: bool,
    pub network: bool,
    pub max_isolation: bool,
    pub cpus: Option<u8>,
    pub memory_mib: Option<u32>,
    pub ports: Seq<Port>,
    /// For each volume its path on the host, its path in the guest, and whether it is read-only.
    pub volumes: Seq<(Seq<char>, Seq<char>, bool)>,
    pub health_check: Option<HealthCheck>,
}

pub open spec fn volume_views(v: Seq<Volume>) -> Seq<(Seq<char>, Seq<char>, bool)> {
    v.map_values(|x: Volume| (x.host_path@, x.guest_path@, x.read_only))
}

impl BoxSpec {
    pub open spec fn view(self) -> BoxSpecView {
        BoxSpecView {
            image: self.image@,
            auto_remove: self.auto_remove,
            network: self.network,
            max_isolation: self.max_isolation,
            cpus: self.cpus,
            memory_mib: self.memory_mib,
            ports: self.ports@,
            volumes: volume_views(self.volumes@),
            health_check: self.health_check,
        }
    }
}

/// A default box of the default image that is removed when it stops.
pub open spec fn alpine() -> BoxSpecView {
    BoxSpecView {
        image: DEFAULT_IMAGE@,
        auto_remove: true,
        network: true,
        max_isolation: false,
        cpus: None,
        memory_mib: None,
        ports: Seq::empty(),
        volumes: Seq::empty(),
        health_check: None,
    }
}

/// A default box of the default image that is removed when it stops.
pub fn alpine_options() -> (r: BoxSpec)
    ensures
        r@ == alpine(),
{
    let r = BoxSpec {
        image: DEFAULT_IMAGE.to_owned(),
        auto_remove: true,
        network: true,
        max_isolation: false,
        cpus: None,
        memory_mib: None,
        ports: Vec::new(),
        volumes: Vec::new(),
        health_check: None,
    };
    assert(volume_views(r.volumes@) =~= Seq::empty());
    r
}

/// A box that survives its stop, so that later iterations find it again.
pub fn source_options() -> (r: BoxSpec)
    ensures
        r@ == (BoxSpecView { auto_remove: false, ..alpine() }),
{
    let mut spec = alpine_options();
    spec.auto_remove = false;
    spec
}

/// A box with one forwarded port.
pub fn forwarding_options(host: u16, guest: u16) -> (r: BoxSpec)
    ensures
        r@ == (BoxSpecView {
            ports: seq![Port { host: Some(host), guest, protocol: Protocol::Tcp }],
            ..alpine()
        }),
{
    let mut spec = alpine_options();
    spec.ports.push(Port { host: Some(host), guest, protocol: Protocol::Tcp });
    assert(spec.ports@ =~= seq![Port { host: Some(host), guest, protocol: Protocol::Tcp }]);
    spec
}

/// How long the stages of creating a box took, in milliseconds, as far as the box knows.
#[derive(Clone, Copy, Debug, PartialEq, Eq, Structural)]
pub struct StageTimes {
    pub total_create: Option<u64>,
    pub guest_boot: Option<u64>,
    pub filesystem_setup: Option<u64>,
    pub image_prepare: Option<u64>,
    pub guest_rootfs: Option<u64>,
    pub box_config: Option<u64>,
    pub box_spawn: Option<u64>,
    pub container_init: Option<u64>,
}

pub open spec fn whole(n: Option<u64>) -> Option<Double> {
    match n {
        Some(x) => Some(Double::integer(x as int)),
        None => None,
    }
}

fn to_number(n: Option<u64>) -> (r: Option<Double>)
    ensures
        r == whole(n),
{
    match n {
        Some(x) => Some(Double::from_u64(x)),
        None => None,
    }
}

/// The metrics of the stages that are known.
pub open spec fn stage_metrics(t: StageTimes) -> Map<Seq<char>, Double> {
    let m = with_some(none(), "total_create_ms"@, whole(t.total_create));
    let m = with_some(m, "guest_boot_ms"@, whole(t.guest_boot));
    let m = with_some(m, "stage_filesystem_setup_ms"@, whole(t.filesystem_setup));
    let m = with_some(m, "stage_image_prepare_ms"@, whole(t.image_prepare));
    let m = with_some(m, "stage_guest_rootfs_ms"@, whole(t.guest_rootfs));
    let m = with_some(m, "stage_box_config_ms"@, whole(t.box_config));
    let m = with_some(m, "stage_box_spawn_ms"@, whole(t.box_spawn));
    with_some(m, "stage_container_init_ms"@, whole(t.container_init))
}

/// The metrics of the stages that are known.
pub fn populate_stage_metrics(t: StageTimes) -> (r: Metrics)
    ensures
        r@ == stage_metrics(t),
{
    let m = add_some(NameMap::new(), "total_create_ms", to_number(t.total_create));
    let m = add_some(m, "guest_boot_ms", to_number(t.guest_boot));
    let m = add_some(m, "stage_filesystem_setup_ms", to_number(t.filesystem_setup));
    let m = add_some(m, "stage_image_prepare_ms", to_number(t.image_prepare));
    let m = add_some(m, "stage_guest_rootfs_ms", to_number(t.guest_rootfs));
    let m = add_some(m, "stage_box_config_ms", to_number(t.box_config));
    let m = add_some(m, "stage_box_spawn_ms", to_number(t.box_spawn));
    add_some(m, "stage_container_init_ms", to_number(t.container_init))
}

/// The rate, in mebibytes per second, of moving `bytes` in `ms` milliseconds. Nothing can be said
/// where no time passed.
pub open spec fn mib_rate(bytes: int, ms: Double) -> Option<Double> {
    if Double::of(false, 0).less(ms) {
        Some(
            Double::integer(bytes).over(Double::integer(1048576)).over(
                ms.over(Double::integer(1000)),
            ),
        )
    } else {
        None
    }
}

pub fn mib_per_sec(bytes: u64, ms: Double) -> (r: Option<Double>)
    ensures
        r == mib_rate(bytes as int, ms),
{
    if Double::from_bits(0).lt(ms) {
        let mib: Double = Double::from_u64(bytes).div(Double::from_u64(1048576));
        Some(mib.div(ms.div(Double::from_u64(1000))))
    } else {
        None
    }
}

/// The number of events in each of `secs` seconds. Nothing can be said where no time passed.
pub open spec fn event_rate(events: int, secs: Double) -> Option<Double> {
    if Double::of(false, 0).less(secs) {
        Some(Double::integer(events).over(secs))
    } else {
        None
    }
}

pub fn per_sec(events: u64, secs: Double) -> (r: Option<Double>)
    ensures
        r == event_rate(events as int, secs),
{
    if Double::from_bits(0).lt(secs) {
        Some(Double::from_u64(events).div(secs))
    } else {
        None
    }
}

/// The largest of the numbers; minus infinity where there are none.
pub open spec fn peak_of(s: Seq<Double>) -> Double
    decreases s.len(),
{
    if s.len() == 0 {
        Double::of(true, 0x7ff0_0000_0000_0000)
    } else if peak_of(s.drop_last()).less(s.last()) {
        s.last()
    } else {
        peak_of(s.drop_last())
    }
}

pub fn peak(s: &Vec<Double>) -> (r: Double)
    ensures
        r == peak_of(s@),
{
    let mut r: Double = Double::from_bits(0xfff0_0000_0000_0000);
    let mut i: usize = 0;
    assert(s@.take(0) == Seq::<Double>::empty());
    assert(r == Double::of(true, 0x7ff0_0000_0000_0000));
    while i < s.len()
        invariant
            i <= s.len(),
            r == peak_of(s@.take(i as int)),
        decreases s.len() - i,
    {
        assert(s@.take(i + 1).drop_last() == s@.take(i as int));
        if r.lt(s[i]) {
            r = s[i];
        }
        i = i + 1;
    }
    assert(s@.take(s.len() as int) == s@);
    r
}

/// The spans in milliseconds.
pub open spec fn in_ms(spans: Seq<Span>) -> Seq<Double> {
    spans.map_values(|s: Span| s.milliseconds())
}

pub fn to_ms(spans: &Vec<Span>) -> (r: Vec<Double>)
    ensures
        r@ == in_ms(spans@),
{
    let mut r: Vec<Double> = Vec::new();
    let mut i: usize = 0;
    while i < spans.len()
        invariant
            i <= spans.len(),
            r@ == in_ms(spans@.take(i as int)),
        decreases spans.len() - i,
    {
        r.push(spans[i].as_ms());
        assert(spans@.take(i + 1) == spans@.take(i as int).push(spans@[i as int]));
        i = i + 1;
        assert(r@ =~= in_ms(spans@.take(i as int)));
    }
    assert(spans@.take(spans.len() as int) == spans@);
    r
}

/// The spans in microseconds.
pub open spec fn in_us(spans: Seq<Span>) -> Seq<Double> {
    spans.map_values(|s: Span| s.microseconds())
}

pub fn to_us(spans: &Vec<Span>) -> (r: Vec<Double>)
    ensures
        r@ == in_us(spans@),
{
    let mut r: Vec<Double> = Vec::new();
    let mut i: usize = 0;
    while i < spans.len()
        invariant
            i <= spans.len(),
            r@ == in_us(spans@.take(i as int)),
        decreases spans.len() - i,
    {
        r.push(spans[i].as_us());
        assert(spans@.take(i + 1) == spans@.take(i as int).push(spans@[i as int]));
        i = i + 1;
        assert(r@ =~= in_us(spans@.take(i as int)));
    }
    assert(spans@.take(spans.len() as int) == spans@);
    r
}

/// The change from one number to another, of whatever sign.
pub open spec fn growth(before: int, after: int) -> Double {
    Double::integer(after).minus(Double::integer(before))
}

pub fn difference(before: u64, after: u64) -> (r: Double)
    ensures
        r == growth(before as int, after as int),
{
    Double::from_u64(after).sub(Double::from_u64(before))
}

/// The change between two counts, where both are known.
pub open spec fn known_growth(before: Option<u64>, after: Option<u64>) -> Option<Double> {
    match (before, after) {
        (Some(b), Some(a)) => Some(growth(b as int, a as int)),
        _ => None,
    }
}

pub fn known_difference(before: Option<u64>, after: Option<u64>) -> (r: Option<Double>)
    ensures
        r == known_growth(before, after),
{
    match (before, after) {
        (Some(b), Some(a)) => Some(difference(b, a)),
        _ => None,
    }
}

/// The change from the first to the last of the numbers, if there are any.
pub open spec fn total_growth(s: Seq<u64>) -> Option<Double> {
    if s.len() > 0 {
        Some(growth(s[0] as int, s.last() as int))
    } else {
        None
    }
}

pub fn first_to_last(s: &Vec<u64>) -> (r: Option<Double>)
    ensures
        r == total_growth(s@),
{
    if s.len() > 0 {
        Some(difference(s[0], s[s.len() - 1]))
    } else {
        None
    }
}

/// The largest of the numbers, if there are any.
pub open spec fn largest(s: Seq<u64>) -> Option<u64>
    decreases s.len(),
{
    if s.len() == 0 {
        None
    } else {
        match largest(s.drop_last()) {
            Some(m) => Some(
                if m > s.last() {
                    m
                } else {
                    s.last()
                },
            ),
            None => Some(s.last()),
        }
    }
}

pub fn max_of(s: &Vec<u64>) -> (r: Option<u64>)
    ensures
        r == largest(s@),
{
    let mut r: Option<u64> = None;
    let mut i: usize = 0;
    assert(s@.take(0) == Seq::<u64>::empty());
    while i < s.len()
        invariant
            i <= s.len(),
            r == largest(s@.take(i as int)),
        decreases s.len() - i,
    {
        assert(s@.take(i + 1).drop_last() == s@.take(i as int));
        let x: u64 = s[i];
        r = match r {
            Some(m) => Some(
                if m > x {
                    m
                } else {
                    x
                },
            ),
            None => Some(x),
        };
        i = i + 1;
    }
    assert(s@.take(s.len() as int) == s@);
    r
}

/// The largest of the numbers as a metric.
pub fn max_number(s: &Vec<u64>) -> (r: Option<Double>)
    ensures
        r == whole(largest(s@)),
{
    to_number(max_of(s))
}

/// The home directory that the iterations of a scenario share. It is made when the first
/// iteration needs it.
#[derive(Debug)]
pub struct Home {
    pub path: Option<String>,
}

impl Home {
    pub fn new() -> (r: Home)
        ensures
            r.path is None,
    {
        Home { path: None }
    }

    /// Whether the directory is still to be made.
    pub fn is_missing(&self) -> (r: bool)
        ensures
            r == (self.path is None),
    {
        self.path.is_none()
    }

    /// Keeps the directory that was made.
    pub fn keep(&mut self, path: String)
        ensures
            final(self).path == Some(path),
    {
        self.path = Some(path);
    }
}

/// The home directory of a scenario, and the box in it that every iteration works on.
#[derive(Debug)]
pub struct SourceBox {
    pub home: Home,
    pub id: Option<String>,
}

impl SourceBox {
    pub fn new() -> (r: SourceBox)
        ensures
            r.home.path is None,
            r.id is None,
    {
        SourceBox { home: Home::new(), id: None }
    }

    /// Whether the box is still to be made and filled. That happens once.
    pub fn needs_staging(&self) -> (r: bool)
        ensures
            r == (self.id is None),
    {
        self.id.is_none()
    }

    /// Keeps the box that was made and filled. A box that is there already stays.
    pub fn staged(&mut self, id: String)
        ensures
            final(self).home == old(self).home,
            final(self).id == match old(self).id {
                Some(first) => Some(first),
                None => Some(id),
            },
    {
        if self.id.is_none() {
            self.id = Some(id);
        }
    }

    /// What the teardown removes: the box in its home, if there is one.
    pub fn leftover(&self) -> (r: Option<(&String, &String)>)
        ensures
            r is Some <==> self.home.path is Some && self.id is Some,
            r matches Some((home, id)) ==> Some(*home) == self.home.path && Some(*id) == self.id,
    {
        match (&self.home.path, &self.id) {
            (Some(home), Some(id)) => Some((home, id)),
            _ => None,
        }
    }
}

/// A box that is removed by force where the work on it ends early. Once the work is done and the
/// box stopped, the guard is disarmed.
#[derive(Debug)]
pub struct BoxGuard {
    pub box_id: String,
    pub armed: bool,
}

impl BoxGuard {
    pub fn new(box_id: String) -> (r: BoxGuard)
        ensures
            r.box_id == box_id,
            r.armed,
    {
        BoxGuard { box_id, armed: true }
    }

    pub fn disarm(&mut self)
        ensures
            !final(self).armed,
            final(self).box_id == old(self).box_id,
    {
        self.armed = false;
    }

    /// The box to remove by force when the work ends here.
    pub fn leftover(&self) -> (r: Option<&String>)
        ensures
            r is Some <==> self.armed,
            r matches Some(id) ==> *id == self.box_id,
    {
        if self.armed {
            Some(&self.box_id)
        } else {
            None
        }
    }
}

/// The space that a disk occupies, given its number of blocks of 512 bytes.
pub fn occupied_bytes(blocks: u64) -> (r: u64)
    requires
        blocks * 512 <= u64::MAX,
    ensures
        r == blocks * 512,
{
    blocks * 512
}

/// A name made unique by a time stamp: `prefix` and the nanoseconds since the epoch.
pub fn stamped(prefix: &str, nanos: u128) -> (r: String)
    ensures
        r@ == prefix@ + decimal(nanos as nat),
{
    let digits = decimal_chars(nanos);
    let mut r: String = prefix.to_owned();
    r.append(string_of(&digits).as_str());
    r
}

/// The sum of single-precision numbers from left to right.
pub open spec fn single_total(s: Seq<Single>) -> Single
    decreases s.len(),
{
    if s.len() == 0 {
        Single { bits: 0x8000_0000 }
    } else {
        single_total(s.drop_last()).plus(s.last())
    }
}

/// The mean of single-precision numbers, computed in single precision.
pub open spec fn single_mean(s: Seq<Single>) -> Double {
    single_total(s).over(Single::integer(s.len())).widened()
}

/// The numbers in double precision.
pub open spec fn widened(s: Seq<Single>) -> Seq<Double> {
    s.map_values(|x: Single| x.widened())
}

/// The mean and the largest of single-precision samples, if there are any.
pub open spec fn single_stats(s: Seq<Single>) -> Option<(Double, Double)> {
    if s.len() > 0 {
        Some((single_mean(s), peak_of(widened(s))))
    } else {
        None
    }
}

pub fn mean_and_max(s: &Vec<Single>) -> (r: Option<(Double, Double)>)
    ensures
        r == single_stats(s@),
{
    if s.len() == 0 {
        return None;
    }
    let mut sum: Single = Single { bits: 0x8000_0000 };
    let mut wide: Vec<Double> = Vec::new();
    let mut i: usize = 0;
    assert(s@.take(0) == Seq::<Single>::empty());
    while i < s.len()
        invariant
            i <= s.len(),
            sum == single_total(s@.take(i as int)),
            wide@ == widened(s@.take(i as int)),
        decreases s.len() - i,
    {
        assert(s@.take(i + 1).drop_last() == s@.take(i as int));
        assert(s@.take(i + 1) == s@.take(i as int).push(s@[i as int]));
        sum = sum.add(s[i]);
        wide.push(s[i].to_double());
        i = i + 1;
        assert(wide@ =~= widened(s@.take(i as int)));
    }
    assert(s@.take(s.len() as int) == s@);
    let mean: Double = sum.div(Single::from_u64(s.len() as u64)).to_double();
    Some((mean, peak(&wide)))
}

/// The first of a pair.
pub open spec fn first(p: Option<(Double, Double)>) -> Option<Double> {
    match p {
        Some((a, _)) => Some(a),
        None => None,
    }
}

/// The second of a pair.
pub open spec fn second(p: Option<(Double, Double)>) -> Option<Double> {
    match p {
        Some((_, b)) => Some(b),
        None => None,
    }
}

pub fn get_first(p: Option<(Double, Double)>) -> (r: Option<Double>)
    ensures
        r == first(p),
{
    match p {
        Some((a, _)) => Some(a),
        None => None,
    }
}

pub fn get_second(p: Option<(Double, Double)>) -> (r: Option<Double>)
    ensures
        r == second(p),
{
    match p {
        Some((_, b)) => Some(b),
        None => None,
    }
}

pub fn number_of(n: Option<u64>) -> (r: Option<Double>)
    ensures
        r == whole(n),
{
    to_number(n)
}

proof fn lemma_stage_names()
    ensures
        "total_create_ms"@ != "guest_boot_ms"@,
        "total_create_ms"@ != "stage_filesystem_setup_ms"@,
        "total_create_ms"@ != "stage_image_prepare_ms"@,
        "total_create_ms"@ != "stage_guest_rootfs_ms"@,
        "total_create_ms"@ != "stage_box_config_ms"@,
        "total_create_ms"@ != "stage_box_spawn_ms"@,
        "total_create_ms"@ != "stage_container_init_ms"@,
        "guest_boot_ms"@ != "stage_filesystem_setup_ms"@,
        "guest_boot_ms"@ != "stage_image_prepare_ms"@,
        "guest_boot_ms"@ != "stage_guest_rootfs_ms"@,
        "guest_boot_ms"@ != "stage_box_config_ms"@,
        "guest_boot_ms"@ != "stage_box_spawn_ms"@,
        "guest_boot_ms"@ != "stage_container_init_ms"@,
        "stage_filesystem_setup_ms"@ != "stage_image_prepare_ms"@,
        "stage_filesystem_setup_ms"@ != "stage_guest_rootfs_ms"@,
        "stage_filesystem_setup_ms"@ != "stage_box_config_ms"@,
        "stage_filesystem_setup_ms"@ != "stage_box_spawn_ms"@,
        "stage_filesystem_setup_ms"@ != "stage_container_init_ms"@,
        "stage_image_prepare_ms"@ != "stage_guest_rootfs_ms"@,
        "stage_image_prepare_ms"@ != "stage_box_config_ms"@,
        "stage_image_prepare_ms"@ != "stage_box_spawn_ms"@,
        "stage_image_prepare_ms"@ != "stage_container_init_ms"@,
        "stage_guest_rootfs_ms"@ != "stage_box_config_ms"@,
        "stage_guest_rootfs_ms"@ != "stage_box_spawn_ms"@,
        "stage_guest_rootfs_ms"@ != "stage_container_init_ms"@,
        "stage_box_config_ms"@ != "stage_box_spawn_ms"@,
        "stage_box_config_ms"@ != "stage_container_init_ms"@,
        "stage_box_spawn_ms"@ != "stage_container_init_ms"@,
{
    reveal_strlit("total_create_ms");
    reveal_strlit("guest_boot_ms");
    reveal_strlit("stage_filesystem_setup_ms");
    reveal_strlit("stage_image_prepare_ms");
    reveal_strlit("stage_guest_rootfs_ms");
    reveal_strlit("stage_box_config_ms");
    reveal_strlit("stage_box_spawn_ms");
    reveal_strlit("stage_container_init_ms");
    assert("total_create_ms"@.len() != "guest_boot_ms"@.len());
    assert("total_create_ms"@.len() != "stage_filesystem_setup_ms"@.len());
    assert("total_create_ms"@.len() != "stage_image_prepare_ms"@.len());
    assert("total_create_ms"@.len() != "stage_guest_rootfs_ms"@.len());
    assert("total_create_ms"@.len() != "stage_box_config_ms"@.len());
    assert("total_create_ms"@.len() != "stage_box_spawn_ms"@.len());
    assert("total_create_ms"@.len() != "stage_container_init_ms"@.len());
    assert("guest_boot_ms"@.len() != "stage_filesystem_setup_ms"@.len());
    assert("guest_boot_ms"@.len() != "stage_image_prepare_ms"@.len());
    assert("guest_boot_ms"@.len() != "stage_guest_rootfs_ms"@.len());
    assert("guest_boot_ms"@.len() != "stage_box_config_ms"@.len());
    assert("guest_boot_ms"@.len() != "stage_box_spawn_ms"@.len());
    assert("guest_boot_ms"@.len() != "stage_container_init_ms"@.len());
    assert("stage_filesystem_setup_ms"@.len() != "stage_image_prepare_ms"@.len());
    assert("stage_filesystem_setup_ms"@.len() != "stage_guest_rootfs_ms"@.len());
    assert("stage_filesystem_setup_ms"@.len() != "stage_box_config_ms"@.len());
    assert("stage_filesystem_setup_ms"@.len() != "stage_box_spawn_ms"@.len());
    assert("stage_filesystem_setup_ms"@.len() != "stage_container_init_ms"@.len());
    assert("stage_image_prepare_ms"@.len() != "stage_guest_rootfs_ms"@.len());
    assert("stage_image_prepare_ms"@.len() != "stage_box_config_ms"@.len());
    assert("stage_image_prepare_ms"@.len() != "stage_box_spawn_ms"@.len());
    assert("stage_image_prepare_ms"@.len() != "stage_container_init_ms"@.len());
    assert("stage_guest_rootfs_ms"@.len() != "stage_box_config_ms"@.len());
    assert("stage_guest_rootfs_ms"@.len() != "stage_box_spawn_ms"@.len());
    assert("stage_guest_rootfs_ms"@.len() != "stage_container_init_ms"@.len());
    assert("stage_box_config_ms"@.len() != "stage_box_spawn_ms"@.len());
    assert("stage_box_config_ms"@.len() != "stage_container_init_ms"@.len());
    assert("stage_box_spawn_ms"@.len() != "stage_container_init_ms"@.len());
}

/// Each stage has a metric of its name exactly where its time is known, and the metric is that
/// time. There are no other metrics.
pub proof fn law_stage_metrics(t: StageTimes)
    ensures
        stage_metrics(t).contains_key("total_create_ms"@) <==> t.total_create is Some,
        t.total_create matches Some(ms) ==> stage_metrics(t)["total_create_ms"@] == Double::integer(ms as int),
        stage_metrics(t).contains_key("guest_boot_ms"@) <==> t.guest_boot is Some,
        t.guest_boot matches Some(ms) ==> stage_metrics(t)["guest_boot_ms"@] == Double::integer(ms as int),
        stage_metrics(t).contains_key("stage_filesystem_setup_ms"@) <==> t.filesystem_setup is Some,
        t.filesystem_setup matches Some(ms) ==> stage_metrics(t)["stage_filesystem_setup_ms"@] == Double::integer(ms as int),
        stage_metrics(t).contains_key("stage_image_prepare_ms"@) <==> t.image_prepare is Some,
        t.image_prepare matches Some(ms) ==> stage_metrics(t)["stage_image_prepare_ms"@] == Double::integer(ms as int),
        stage_metrics(t).contains_key("stage_guest_rootfs_ms"@) <==> t.guest_rootfs is Some,
        t.guest_rootfs matches Some(ms) ==> stage_metrics(t)["stage_guest_rootfs_ms"@] == Double::integer(ms as int),
        stage_metrics(t).contains_key("stage_box_config_ms"@) <==> t.box_config is Some,
        t.box_config matches Some(ms) ==> stage_metrics(t)["stage_box_config_ms"@] == Double::integer(ms as int),
        stage_metrics(t).contains_key("stage_box_spawn_ms"@) <==> t.box_spawn is Some,
        t.box_spawn matches Some(ms) ==> stage_metrics(t)["stage_box_spawn_ms"@] == Double::integer(ms as int),
        stage_metrics(t).contains_key("stage_container_init_ms"@) <==> t.container_init is Some,
        t.container_init matches Some(ms) ==> stage_metrics(t)["stage_container_init_ms"@] == Double::integer(ms as int),
        forall|n: Seq<char>| #[trigger]
            stage_metrics(t).contains_key(n) ==> n == "total_create_ms"@
                || n == "guest_boot_ms"@
                || n == "stage_filesystem_setup_ms"@
                || n == "stage_image_prepare_ms"@
                || n == "stage_guest_rootfs_ms"@
                || n == "stage_box_config_ms"@
                || n == "stage_box_spawn_ms"@
                || n == "stage_container_init_ms"@,
{
    lemma_stage_names();
}

/// The peak of numbers is one of them, and none is larger.
pub proof fn law_peak_is_the_largest(s: Seq<Double>)
    requires
        s.len() > 0,
        forall|i: int| 0 <= i < s.len() ==> (#[trigger] s[i]).finite(),
    ensures
        s.contains(peak_of(s)),
        forall|i: int| 0 <= i < s.len() ==> (#[trigger] s[i]).rank() <= peak_of(s).rank(),
    decreases s.len(),
{
    let front = s.drop_last();
    let last = s.last();
    assert(s[s.len() - 1].finite());
    assert forall|i: int| 0 <= i < front.len() implies (#[trigger] front[i]).finite() by {
        assert(s[i].finite());
    }
    if front.len() > 0 {
        law_peak_is_the_largest(front);
        let k = choose|k: int| 0 <= k < front.len() && front[k] == peak_of(front);
        assert(s[k] == peak_of(front));
        assert(front[k].finite());
        assert forall|i: int| 0 <= i < s.len() implies (#[trigger] s[i]).rank() <= peak_of(
            s,
        ).rank() by {
            if i < front.len() {
                assert(front[i].rank() <= peak_of(front).rank());
            }
        }
    }
    if peak_of(s) == last {
        assert(s[s.len() - 1] == peak_of(s));
    }
}

/// The largest of integers is one of them, and none is larger; there is none only where there are
/// no integers.
pub proof fn law_largest_is_the_largest(s: Seq<u64>)
    ensures
        largest(s) is None <==> s.len() == 0,
        largest(s) matches Some(m) ==> s.contains(m) && forall|i: int|
            0 <= i < s.len() ==> #[trigger] s[i] <= m,
    decreases s.len(),
{
    if s.len() > 0 {
        let front = s.drop_last();
        law_largest_is_the_largest(front);
        let m = largest(s)->0;
        if m == s.last() {
            assert(s[s.len() - 1] == m);
        } else {
            let k = choose|k: int| 0 <= k < front.len() && front[k] == m;
            assert(s[k] == m);
        }
        assert forall|i: int| 0 <= i < s.len() implies #[trigger] s[i] <= m by {
            if i < front.len() {
                assert(front[i] <= largest(front)->0);
            }
        }
    }
}

/// A growth is what the number after exceeds the number before by: exact for numbers up to `2^53`,
/// positive where it grew, negative where it shrank.
pub proof fn law_growth_is_the_difference(before: int, after: int)
    requires
        0 <= before <= 0x20_0000_0000_0000,
        0 <= after <= 0x20_0000_0000_0000,
    ensures
        growth(before, after).finite(),
        growth(before, after).value() == (after - before) * pow2(1074),
{
    let u = pow2(1074) as int;
    let (a, b) = (Double::integer(after), Double::integer(before));
    lemma_pow2_pos(1074);
    law_integers_are_exact(after);
    law_integers_are_exact(before);
    let n = b.negated();
    assert(n.magnitude() == b.magnitude() && n.negative() == !b.negative());
    assert(n.value() == -b.value());
    let x = (after - before) * u;
    assert(after * u - before * u == x) by (nonlinear_arith)
        requires
            x == (after - before) * u,
    ;
    let d = if after < before {
        before - after
    } else {
        after - before
    };
    law_integers_are_exact(d);
    assert(size(x) == d * u) by (nonlinear_arith)
        requires
            x == (after - before) * u,
            d == distance(after, before),
            u > 0,
    ;
    lemma_within_range(d);
    law_difference_is_rounded(a, b);
    let g = growth(before, after);
    let p = Double::integer(d);
    let m = nearest_magnitude(size(x), 1, 53);
    assert(pow2(2097) * 1 == pow2(2097));
    lemma_nearest_finite(size(x), 1);
    if x == 0 {
        assert(distance(g.value(), 0) == 0);
    } else {
        assert(g == Double::nearest(x < 0, size(x), 1));
        assert(p == Double::nearest(false, size(x), 1));
        assert(g == Double::of(x < 0, m) && p == Double::of(false, m));
        assert(g.magnitude() == m && p.magnitude() == m);
    }
}

/// The growth over a series is that from its first number to its last, and there is one wherever
/// there is a number.
pub proof fn law_total_growth_spans_the_series(s: Seq<u64>)
    ensures
        total_growth(s) is Some <==> s.len() > 0,
        s.len() > 0 && s[0] <= 0x20_0000_0000_0000 && s[s.len() - 1] <= 0x20_0000_0000_0000 ==> (
        total_growth(s) matches Some(g) && g.finite() && g.value() == (s[s.len() - 1] - s[0])
            * pow2(1074)),
{
    if s.len() > 0 && s[0] <= 0x20_0000_0000_0000 && s[s.len() - 1] <= 0x20_0000_0000_0000 {
        law_growth_is_the_difference(s[0] as int, s[s.len() - 1] as int);
    }
}

/// The growth between two counts is known where both are, and is then their difference.
pub proof fn law_known_growth_needs_both(b: u64, a: u64)
    ensures
        known_growth(None, Some(a)) is None,
        known_growth(Some(b), None) is None,
        known_growth(None, None) is None,
        known_growth(Some(b), Some(a)) is Some,
        a <= 0x20_0000_0000_0000 && b <= 0x20_0000_0000_0000 ==> known_growth(
            Some(b),
            Some(a),
        )->0.value() == (a - b) * pow2(1074),
{
    if a <= 0x20_0000_0000_0000 && b <= 0x20_0000_0000_0000 {
        law_growth_is_the_difference(b as int, a as int);
    }
}

/// A quotient is near the exact one, where that is not near the smallest numbers.
pub proof fn lemma_quotient_near(a: Double, b: Double)
    requires
        a.finite(),
        b.finite(),
        a.value() >= 0,
        b.value() > 0,
        a.value() * pow2(1074) <= pow2(2097) * b.value(),
        0x10_0000_0000_0000 * b.value() <= a.value() * pow2(1074) || a.value() == 0,
    ensures
        a.over(b).finite(),
        near(a.over(b).value() * b.value(), a.value() * pow2(1074), 1),
{
    let u = pow2(1074) as int;
    law_quotient_is_rounded(a, b);
    let (x, y, q) = (a.value(), b.value(), a.over(b).value());
    if x == 0 {
        assert(x * u == 0) by (nonlinear_arith)
            requires
                x == 0,
        ;
        assert(q == 0) by (nonlinear_arith)
            requires
                2 * distance(q * y, 0) <= y,
                y > 0,
        ;
        assert(q * y == 0) by (nonlinear_arith)
            requires
                q == 0,
        ;
    }
}

/// A rate is the number of events divided by the seconds, but for three parts in `2^53`; there is
/// none where no time passed.
pub proof fn law_event_rate_is_exact(events: int, secs: Double)
    requires
        0 <= events <= u64::MAX,
        secs.finite(),
    ensures
        event_rate(events, secs) is Some <==> secs.value() > 0,
        secs.value() > 0 && 2 * (events * pow2(1074) * pow2(1074)) <= pow2(2097) * secs.value() && (
        0x20_0000_0000_0000 * secs.value() <= events * pow2(1074) * pow2(1074) || events == 0) ==> (
        event_rate(events, secs) matches Some(r) && r.finite() && near(
            r.value() * secs.value(),
            events * pow2(1074) * pow2(1074),
            3,
        )),
{
    let u = pow2(1074) as int;
    let zero = Double::of(false, 0);
    lemma_units_zero();
    law_order_is_numeric(zero, secs);
    lemma_within_range(events);
    law_integer_is_rounded(events);
    let s = secs.value();
    let x = events * u;
    let y = x * u;
    let w = pow2(2097) as int;
    if s > 0 && 2 * y <= w * s && (0x20_0000_0000_0000 * s <= y || events == 0) {
        let e = Double::integer(events);
        let v = e.value();
        assert(x >= 0) by (nonlinear_arith)
            requires
                x == events * u,
                events >= 0,
                u > 0,
        ;
        lemma_near_back(v, x, 1);
        lemma_near_scales(v, x, 1, u);
        assert(y >= 0) by (nonlinear_arith)
            requires
                y == x * u,
                x >= 0,
                u > 0,
        ;
        assert(v * u <= 2 * y && y <= 2 * (v * u));
        if events == 0 {
            assert(x == 0 && v == 0) by (nonlinear_arith)
                requires
                    x == events * u,
                    events == 0,
                    0x20_0000_0000_0000 * distance(v, x) <= x,
            ;
        }
        lemma_quotient_near(e, secs);
        lemma_near_chain(e.over(secs).value() * s, v * u, y, 1, 1);
    }
}

/// A rate in mebibytes is the number of bytes divided by 1048576 and by the seconds, of which there
/// are a thousandth of the milliseconds: off by at most eight parts in `2^53`, for every time
/// between `2^-200` and `2^200` milliseconds. There is none where no time passed.
pub proof fn law_mib_rate_is_exact(bytes: int, ms: Double)
    requires
        0 <= bytes <= u64::MAX,
        ms.finite(),
    ensures
        mib_rate(bytes, ms) is Some <==> ms.value() > 0,
        pow2(874) <= ms.value() <= pow2(1274) ==> (mib_rate(bytes, ms) matches Some(r) && r.finite()
            && near(
            r.value() * ms.value() * 1048576,
            bytes * pow2(1074) * pow2(1074) * 1000,
            8,
        )),
{
    let u = pow2(1074) as int;
    let zero = Double::of(false, 0);
    lemma_units_zero();
    law_order_is_numeric(zero, ms);
    lemma_pow2_pos(874);
    if pow2(874) <= ms.value() <= pow2(1274) {
        lemma_in_seconds(ms);
        lemma_in_mebibytes(bytes);
        let k = ms.over(Double::integer(1000));
        let b = Double::integer(bytes).over(Double::integer(1048576));
        let (t, q, m) = (ms.value(), k.value(), b.value());
        lemma_pow2_pos(1074);
        lemma_rate_in_range(bytes, m, q);
        lemma_quotient_near(b, k);
        let r = b.over(k).value();
        let mu = m * u;
        assert(mu >= 0) by (nonlinear_arith)
            requires
                mu == m * u,
                m >= 0,
                u > 0,
        ;
        lemma_near_back(r * q, mu, 1);
        assert(r >= 0) by (nonlinear_arith)
            requires
                r * q >= 0,
                q > 0,
        ;
        let f = r * 1048576;
        lemma_near_back(q * 1000, t, 1);
        lemma_near_scales(t, q * 1000, 2, f);
        lemma_near_scales(r * q, mu, 1, 1048576000);
        assert((q * 1000) * f == (r * q) * 1048576000) by (nonlinear_arith)
            requires
                f == r * 1048576,
        ;
        let g = mu * 1048576000;
        lemma_near_chain(t * f, (q * 1000) * f, g, 2, 1);
        let w = 1000 * u;
        lemma_near_scales(m * 1048576, bytes * u, 3, w);
        assert((m * 1048576) * w == g) by (nonlinear_arith)
            requires
                w == 1000 * u,
                g == (m * u) * 1048576000,
        ;
        assert((bytes * u) * w == bytes * u * u * 1000) by (nonlinear_arith)
            requires
                w == 1000 * u,
        ;
        assert((bytes * u) * w >= 0) by (nonlinear_arith)
            requires
                bytes >= 0,
                u > 0,
                w == 1000 * u,
        ;
        lemma_near_chain(t * f, g, (bytes * u) * w, 4, 3);
        assert(t * f == r * t * 1048576) by (nonlinear_arith)
            requires
                f == r * 1048576,
        ;
    }
}

proof fn lemma_in_seconds(ms: Double)
    requires
        ms.finite(),
        pow2(874) <= ms.value() <= pow2(1274),
    ensures
        ({
            let k = ms.over(Double::integer(1000));
            &&& k.finite()
            &&& near(k.value() * 1000, ms.value(), 1)
            &&& pow2(800) <= k.value() <= pow2(1274)
        }),
{
    let u = pow2(1074) as int;
    let t = ms.value();
    let w = pow2(2097) as int;
    lemma2_to64();
    lemma_pow2_pos(1074);
    lemma_pow2_pos(800);
    law_integers_are_exact(1000);
    lemma_pow2_strictly_increases(1274, 2097);
    lemma_pow2_strictly_increases(64, 874);
    let y = 1000 * u;
    assert(t * u <= w * y) by (nonlinear_arith)
        requires
            0 <= t <= w,
            y == 1000 * u,
            u > 0,
    ;
    let h: int = 0x10_0000_0000_0000;
    assert(h * y <= t * u) by (nonlinear_arith)
        requires
            h * 1000 <= t,
            y == 1000 * u,
            u > 0,
    ;
    lemma_quotient_near(ms, Double::integer(1000));
    let q = ms.over(Double::integer(1000)).value();
    assert(q * y == (q * 1000) * u) by (nonlinear_arith)
        requires
            y == 1000 * u,
    ;
    lemma_near_divides(q * 1000, t, 1, u);
    lemma_pow2_adds(10, 800);
    lemma_pow2_unfold(811);
    lemma_pow2_strictly_increases(811, 874);
}

proof fn lemma_in_mebibytes(bytes: int)
    requires
        0 <= bytes <= u64::MAX,
    ensures
        ({
            let b = Double::integer(bytes).over(Double::integer(1048576));
            &&& b.finite()
            &&& b.value() >= 0
            &&& near(b.value() * 1048576, bytes * pow2(1074), 3)
        }),
{
    let u = pow2(1074) as int;
    let w = pow2(2097) as int;
    let k: int = 1048576;
    lemma_pow2_pos(1074);
    law_integers_are_exact(k);
    lemma_within_range(2 * bytes);
    law_integer_is_rounded(bytes);
    let n = Double::integer(bytes);
    let (v, x) = (n.value(), bytes * u);
    assert(x >= 0) by (nonlinear_arith)
        requires
            x == bytes * u,
            bytes >= 0,
            u > 0,
    ;
    lemma_near_back(v, x, 1);
    assert((2 * bytes) * u == 2 * x) by (nonlinear_arith)
        requires
            x == bytes * u,
    ;
    let y = k * u;
    assert(v * u <= w * y) by (nonlinear_arith)
        requires
            0 <= v <= w,
            y == k * u,
            k >= 1,
            u > 0,
    ;
    if bytes > 0 {
        assert(x >= u) by (nonlinear_arith)
            requires
                x == bytes * u,
                bytes >= 1,
                u > 0,
        ;
        assert(0x10_0000_0000_0000 * y <= v * u) by (nonlinear_arith)
            requires
                2 * v >= u,
                u > 0x1_0000_0000_0000_0000_0000_0000_0000_0000,
                y == k * u,
                k == 1048576,
        ;
    } else {
        assert(x == 0) by (nonlinear_arith)
            requires
                x == bytes * u,
                bytes == 0,
        ;
    }
    lemma_quotient_near(n, Double::integer(k));
    let m = n.over(Double::integer(k)).value();
    assert(m * y == (m * k) * u) by (nonlinear_arith)
        requires
            y == k * u,
    ;
    lemma_near_divides(m * k, v, 1, u);
    lemma_near_chain(m * k, v, x, 1, 1);
    lemma_near_back(m * k, x, 3);
}

proof fn lemma_rate_in_range(bytes: int, m: int, q: int)
    requires
        0 <= bytes <= u64::MAX,
        m >= 0,
        near(m * 1048576, bytes * pow2(1074), 3),
        pow2(800) <= q <= pow2(1274),
    ensures
        q > 0,
        m * pow2(1074) <= pow2(2097) * q,
        0x10_0000_0000_0000 * q <= m * pow2(1074) || m == 0,
{
    let u = pow2(1074) as int;
    let w = pow2(2097) as int;
    let x = bytes * u;
    lemma2_to64();
    lemma_pow2_pos(800);
    lemma_pow2_pos(1074);
    lemma_within_range(bytes);
    assert(0 <= x <= pow2(64) * u) by (nonlinear_arith)
        requires
            x == bytes * u,
            0 <= bytes <= pow2(64),
            u > 0,
    ;
    lemma_pow2_adds(64, 1074);
    lemma_pow2_adds(1138, 1074);
    lemma_pow2_adds(2097, 800);
    lemma_pow2_strictly_increases(2212, 2897);
    lemma_pow2_pos(2097);
    let p = pow2(1138) as int;
    assert(m <= p);
    assert(m * u <= p * u) by (nonlinear_arith)
        requires
            m <= p,
            u > 0,
    ;
    assert(w * pow2(800) <= w * q) by (nonlinear_arith)
        requires
            pow2(800) <= q,
            w > 0,
    ;
    lemma_pow2_strictly_increases(2212, 2897);
    assert(p * u == pow2(2212));
    if bytes > 0 {
        assert(x >= u) by (nonlinear_arith)
            requires
                x == bytes * u,
                bytes >= 1,
                u > 0,
        ;
        assert(2 * (m * 1048576) >= u);
        lemma_large_powers();
        lemma_pow2_adds(52, 1274);
        lemma_pow2_adds(1074, 1074);
        lemma_pow2_adds(1326, 21);
        lemma_pow2_strictly_increases(1347, 2148);
        let h: int = 0x10_0000_0000_0000;
        assert(h * q <= pow2(1326)) by (nonlinear_arith)
            requires
                q <= pow2(1274),
                pow2(1326) == h * pow2(1274),
                h > 0,
        ;
        assert(2097152 * (m * u) >= u * u) by (nonlinear_arith)
            requires
                2097152 * m >= u,
                u > 0,
        ;
    } else {
        assert(x == 0) by (nonlinear_arith)
            requires
                x == bytes * u,
                bytes == 0,
        ;
    }
}

/// The exact sum of single-precision numbers, in units of `2^-149`.
pub open spec fn single_sum(s: Seq<Single>) -> int
    decreases s.len(),
{
    if s.len() == 0 {
        0
    } else {
        single_sum(s.drop_last()) + s.last().value()
    }
}

/// The exact sum of their magnitudes, in the same units.
pub open spec fn single_sizes(s: Seq<Single>) -> int
    decreases s.len(),
{
    if s.len() == 0 {
        0
    } else {
        single_sizes(s.drop_last()) + size(s.last().value())
    }
}

proof fn lemma_single_sizes(s: Seq<Single>)
    ensures
        size(single_sum(s)) <= single_sizes(s),
        single_sizes(s) >= 0,
    decreases s.len(),
{
    if s.len() > 0 {
        lemma_single_sizes(s.drop_last());
    }
}

proof fn lemma_single_total(s: Seq<Single>)
    requires
        s.len() <= 0x80_0000,
        forall|i: int| 0 <= i < s.len() ==> single_finite(#[trigger] s[i]),
        single_sizes(s) <= pow2(270),
    ensures
        single_finite(single_total(s)),
        0x80_0000 * distance(single_total(s).value(), single_sum(s)) <= s.len() * single_sizes(s),
    decreases s.len(),
{
    let n = s.len() as int;
    if n == 0 {
        lemma_single_zero();
        assert(0 * single_sizes(s) == 0);
    } else {
        let front = s.drop_last();
        let x = s.last();
        assert(single_finite(s[n - 1]));
        assert forall|i: int| 0 <= i < front.len() implies single_finite(#[trigger] front[i]) by {
            assert(single_finite(s[i]));
        }
        lemma_single_sizes(front);
        lemma_single_sizes(s);
        lemma_single_total(front);
        lemma_pow2_unfold(271);
        lemma_pow2_strictly_increases(271, 276);
        let t = single_total(front).value();
        let (a, b) = (single_sizes(front), single_sizes(s));
        let e = distance(t, single_sum(front));
        assert(e <= a) by (nonlinear_arith)
            requires
                0x80_0000 * e <= (n - 1) * a,
                1 <= n <= 0x80_0000,
                a >= 0,
        ;
        law_single_sum_is_rounded(single_total(front), x);
        assert((n - 1) * a + b <= n * b) by (nonlinear_arith)
            requires
                n >= 1,
                0 <= a <= b,
        ;
    }
}

proof fn lemma_single_zero()
    ensures
        single_finite(Single { bits: 0x8000_0000 }),
        (Single { bits: 0x8000_0000 }).value() == 0,
{
    lemma_single_units_not_negative(0);
}

/// The mean of single-precision numbers: times their count it is their exact sum, but for twice as
/// many parts in `2^24` of the sum of their magnitudes as there are numbers, and nine more, and a
/// few of the smallest single-precision numbers. Every number has the same weight.
pub proof fn law_single_mean_is_exact(s: Seq<Single>)
    requires
        0 < s.len() <= 0x80_0000,
        forall|i: int| 0 <= i < s.len() ==> single_finite(#[trigger] s[i]),
        single_sizes(s) <= pow2(270),
    ensures
        single_mean(s).finite(),
        0x100_0000 * distance(single_mean(s).value() * s.len(), single_sum(s) * pow2(925)) <= ((2
            * s.len() + 9) * single_sizes(s) + 0x400_0000 * s.len()) * pow2(925),
{
    let n = s.len() as int;
    let w = pow2(149) as int;
    let g = pow2(925) as int;
    let (b, z) = (single_sizes(s), single_sum(s));
    lemma_single_sizes(s);
    lemma_single_total(s);
    law_single_integer_is_rounded(s.len());
    lemma_pow2_pos(149);
    lemma_pow2_pos(925);
    lemma_pow2_unfold(271);
    lemma_pow2_unfold(272);
    lemma_pow2_unfold(273);
    lemma_pow2_strictly_increases(273, 276);
    lemma2_to64();
    lemma_pow2_strictly_increases(64, 270);
    let a = single_total(s);
    let d = Single::integer(s.len());
    let (t, y) = (a.value(), d.value());
    let nw = n * w;
    assert(nw >= w) by (nonlinear_arith)
        requires
            nw == n * w,
            n >= 1,
            w > 0,
    ;
    let e = distance(t, z);
    assert(e <= b) by (nonlinear_arith)
        requires
            0x80_0000 * e <= n * b,
            1 <= n <= 0x80_0000,
            b >= 0,
    ;
    let p = pow2(276) as int;
    assert(size(t) * w < p * y) by (nonlinear_arith)
        requires
            0 <= size(t) <= 2 * b,
            8 * b <= p,
            2 * y >= w,
            w > 0,
            p > 0,
            b >= 0,
    ;
    law_single_quotient_is_rounded(a, d);
    let r = a.over(d).value();
    let f = distance(r * y, t * w);
    let (bw, tw) = (b * w, t * w);
    assert(size(tw) == size(t) * w && size(t) * w <= 2 * bw) by (nonlinear_arith)
        requires
            tw == t * w,
            bw == b * w,
            size(t) <= 2 * b,
            w > 0,
    ;
    assert(0x100_0000 * f <= 2 * bw + 0x100_0000 * nw);
    let ry = r * y;
    assert(size(ry) == size(r) * y) by (nonlinear_arith)
        requires
            ry == r * y,
            y > 0,
    ;
    let rn = size(r) * nw;
    assert(rn <= 2 * (size(r) * y) && rn >= 0) by (nonlinear_arith)
        requires
            rn == size(r) * nw,
            nw <= 2 * y,
            nw >= 0,
            size(r) >= 0,
    ;
    assert(bw >= 0) by (nonlinear_arith)
        requires
            bw == b * w,
            b >= 0,
            w > 0,
    ;
    assert(rn <= 6 * bw + 2 * nw);
    let h = distance(r * nw, r * y);
    assert(0x100_0000 * h <= rn) by (nonlinear_arith)
        requires
            h == distance(r * nw, r * y),
            0x100_0000 * distance(y, nw) <= nw,
            rn == size(r) * nw,
    ;
    let zw = z * w;
    assert(distance(tw, zw) == e * w) by (nonlinear_arith)
        requires
            tw == t * w,
            zw == z * w,
            e == distance(t, z),
            w > 0,
    ;
    assert(0x100_0000 * (e * w) <= 2 * (n * bw)) by (nonlinear_arith)
        requires
            0x80_0000 * e <= n * b,
            bw == b * w,
            w > 0,
    ;
    let x = (2 * n + 8) * b + 0x200_0000 * n;
    assert(x * w == 2 * (n * bw) + 8 * bw + 0x200_0000 * nw) by (nonlinear_arith)
        requires
            x == (2 * n + 8) * b + 0x200_0000 * n,
            bw == b * w,
            nw == n * w,
    ;
    assert(0x100_0000 * distance(r * nw, zw) <= x * w);
    let rn1 = r * n;
    assert(distance(r * nw, zw) == distance(rn1, z) * w) by (nonlinear_arith)
        requires
            rn1 == r * n,
            nw == n * w,
            zw == z * w,
            w > 0,
    ;
    let i = distance(rn1, z);
    assert(0x100_0000 * i <= x) by (nonlinear_arith)
        requires
            0x100_0000 * (i * w) <= x * w,
            w > 0,
    ;
    assert(size(r) * n <= 6 * b + 2 * n) by (nonlinear_arith)
        requires
            rn == size(r) * nw,
            rn <= 6 * bw + 2 * nw,
            nw == n * w,
            bw == b * w,
            w > 0,
    ;
    assert(size(r) <= size(r) * n) by (nonlinear_arith)
        requires
            n >= 1,
            size(r) >= 0,
    ;
    law_widening_is_rounded(a.over(d));
    let m = single_mean(s).value();
    let j = distance(m, r * g);
    let q = size(r) * n;
    let rg = rn1 * g;
    assert(distance(m * n, rg) == j * n) by (nonlinear_arith)
        requires
            j == distance(m, r * g),
            rg == (r * n) * g,
            n >= 1,
    ;
    assert(0x20_0000_0000_0000 * (j * n) <= q * g) by (nonlinear_arith)
        requires
            0x20_0000_0000_0000 * j <= size(r) * g,
            q == size(r) * n,
            n >= 1,
    ;
    let zg = z * g;
    assert(distance(rg, zg) == i * g) by (nonlinear_arith)
        requires
            rg == rn1 * g,
            zg == z * g,
            i == distance(rn1, z),
            g > 0,
    ;
    assert(0x100_0000 * (i * g) <= x * g) by (nonlinear_arith)
        requires
            0x100_0000 * i <= x,
            g > 0,
    ;
    let (bg, ng) = (b * g, n * g);
    assert(bg >= 0 && ng >= 0) by (nonlinear_arith)
        requires
            bg == b * g,
            ng == n * g,
            b >= 0,
            n >= 0,
            g > 0,
    ;
    assert(q * g <= 6 * bg + 2 * ng) by (nonlinear_arith)
        requires
            q <= 6 * b + 2 * n,
            bg == b * g,
            ng == n * g,
            g > 0,
    ;
    let last = (2 * n + 9) * b + 0x400_0000 * n;
    assert(last * g == x * g + bg + 0x200_0000 * ng) by (nonlinear_arith)
        requires
            last == (2 * n + 9) * b + 0x400_0000 * n,
            x == (2 * n + 8) * b + 0x200_0000 * n,
            bg == b * g,
            ng == n * g,
    ;
    assert(0x100_0000 * (j * n) <= bg + ng);
}

/// Single-precision samples have a mean and a peak wherever there is one, the mean first.
pub proof fn law_single_stats_are_mean_and_peak(s: Seq<Single>)
    ensures
        s.len() == 0 ==> single_stats(s) is None && first(single_stats(s)) is None && second(
            single_stats(s),
        ) is None,
        s.len() > 0 ==> first(single_stats(s)) == Some(single_mean(s)) && second(single_stats(s))
            == Some(peak_of(widened(s))),
        widened(s).len() == s.len(),
        forall|i: int| 0 <= i < s.len() ==> #[trigger] widened(s)[i] == s[i].widened(),
{
}

/// The spans are measured one by one, in their order.
pub proof fn law_spans_keep_their_order(spans: Seq<Span>)
    ensures
        in_ms(spans).len() == spans.len(),
        in_us(spans).len() == spans.len(),
        forall|i: int| 0 <= i < spans.len() ==> #[trigger] in_ms(spans)[i] == spans[i].milliseconds(),
        forall|i: int| 0 <= i < spans.len() ==> #[trigger] in_us(spans)[i] == spans[i].microseconds(),
{
}

/// An integer in decimal is read back, its sign included.
pub proof fn law_integers_are_read_back(n: int)
    requires
        i32::MIN <= n <= i32::MAX,
    ensures
        parsed_i32(integer_text(n)) == Some(n),
{
    reveal_strlit("-");
    assert("-"@ =~= seq!['-']);
    if n < 0 {
        law_numbers_are_read_back((-n) as nat, Seq::empty());
    } else {
        law_numbers_are_read_back(n as nat, Seq::empty());
    }
}

} // verus!
