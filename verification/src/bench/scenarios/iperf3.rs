//! What `iperf3` reports: the JSON document that it prints with `-J`.

use crate::bench::accuracy::{all_finite, exact_sizes, exact_sum, lemma_mean_is_exact};
use crate::bench::scenarios::common::{none, Metrics};
use crate::bench::stats::{deviation, deviation_of, mean, mean_of, sum_numbers, total};
use crate::json::{document, parse, Json, JsonView};
use crate::names::NameMap;
use crate::number::double::Double;
use crate::number::error::distance;
use vstd::arithmetic::power2::pow2;
use vstd::prelude::*;

verus! {

/// Why a report is refused. The values are looked for in this order.
#[derive(Clone, Copy, Debug, PartialEq, Eq, Structural)]
pub enum Iperf3Error {
    NotJson,
    /// `.end` is missing.
    NoEnd,
    /// `.end.sum_received` is missing, or `.end.sum` for UDP.
    NoSum,
    NoBitsPerSecond,
    NoSeconds,
    /// `.end.streams` is missing.
    NoStreams,
}

/// What is measured: from the host into a box, out of a box, over several streams, or over UDP.
#[derive(Clone, Copy, Debug, PartialEq, Eq, Structural)]
pub enum Transfer {
    Ingress,
    Egress,
    Parallel,
    Udp,
}

/// What a refused report is answered with.
pub open spec fn iperf3_error_text(error: Iperf3Error, transfer: Transfer) -> Seq<char> {
    match error {
        Iperf3Error::NotJson => if transfer == Transfer::Udp {
            "iperf3 -u JSON parse"@
        } else {
            "iperf3 JSON parse"@
        },
        Iperf3Error::NoEnd => if transfer == Transfer::Ingress {
            ".end missing in iperf3 output"@
        } else {
            ".end missing"@
        },
        Iperf3Error::NoSum => if transfer == Transfer::Udp {
            ".end.sum missing (UDP path)"@
        } else {
            ".end.sum_received missing"@
        },
        Iperf3Error::NoBitsPerSecond => if transfer == Transfer::Udp {
            ".end.sum.bits_per_second missing"@
        } else {
            ".end.sum_received.bits_per_second missing"@
        },
        Iperf3Error::NoSeconds => if transfer == Transfer::Udp {
            ".end.sum.seconds missing"@
        } else {
            ".end.sum_received.seconds missing"@
        },
        Iperf3Error::NoStreams => ".end.streams missing"@,
    }
}

impl Iperf3Error {
    pub fn message(self, transfer: Transfer) -> (r: &'static str)
        ensures
            r@ == iperf3_error_text(self, transfer),
    {
        let udp: bool = transfer == Transfer::Udp;
        match self {
            Iperf3Error::NotJson => if udp {
                "iperf3 -u JSON parse"
            } else {
                "iperf3 JSON parse"
            },
            Iperf3Error::NoEnd => if transfer == Transfer::Ingress {
                ".end missing in iperf3 output"
            } else {
                ".end missing"
            },
            Iperf3Error::NoSum => if udp {
                ".end.sum missing (UDP path)"
            } else {
                ".end.sum_received missing"
            },
            Iperf3Error::NoBitsPerSecond => if udp {
                ".end.sum.bits_per_second missing"
            } else {
                ".end.sum_received.bits_per_second missing"
            },
            Iperf3Error::NoSeconds => if udp {
                ".end.sum.seconds missing"
            } else {
                ".end.sum_received.seconds missing"
            },
            Iperf3Error::NoStreams => ".end.streams missing",
        }
    }
}

/// The totals of a transfer.
#[derive(Clone, Copy, Debug, PartialEq, Eq, Structural)]
pub struct Totals {
    pub bits_per_second: Double,
    pub seconds: Double,
}

/// The totals that `.end` holds under `name`.
pub open spec fn totals_of(end: JsonView, name: Seq<char>) -> Result<Totals, Iperf3Error> {
    match end.member(name) {
        None => Err(Iperf3Error::NoSum),
        Some(sum) => match (sum.number_at("bits_per_second"@), sum.number_at("seconds"@)) {
            (None, _) => Err(Iperf3Error::NoBitsPerSecond),
            (_, None) => Err(Iperf3Error::NoSeconds),
            (Some(bits_per_second), Some(seconds)) => Ok(Totals { bits_per_second, seconds }),
        },
    }
}

/// The retransmissions that the sender of a stream saw.
pub open spec fn stream_retransmits(stream: JsonView) -> Option<Double> {
    match stream.member("sender"@) {
        Some(sender) => sender.number_at("retransmits"@),
        None => None,
    }
}

/// The rate that the receiver of a stream saw.
pub open spec fn stream_rate(stream: JsonView) -> Option<Double> {
    match stream.member("receiver"@) {
        Some(receiver) => receiver.number_at("bits_per_second"@),
        None => None,
    }
}

pub open spec fn or_zero(x: Option<Double>) -> Double {
    match x {
        Some(x) => x,
        None => Double::of(false, 0),
    }
}

fn zero_if_none(x: Option<Double>) -> (r: Double)
    ensures
        r == or_zero(x),
{
    match x {
        Some(x) => x,
        None => Double::from_bits(0),
    }
}

fn read_totals(end: &Json, name: &str) -> (r: Result<Totals, Iperf3Error>)
    ensures
        r == totals_of(end@, name@),
{
    match end.get(name) {
        None => Err(Iperf3Error::NoSum),
        Some(sum) => match (sum.number("bits_per_second"), sum.number("seconds")) {
            (None, _) => Err(Iperf3Error::NoBitsPerSecond),
            (_, None) => Err(Iperf3Error::NoSeconds),
            (Some(bits_per_second), Some(seconds)) => Ok(Totals { bits_per_second, seconds }),
        },
    }
}

fn read_retransmits(stream: &Json) -> (r: Option<Double>)
    ensures
        r == stream_retransmits(stream@),
{
    match stream.get("sender") {
        Some(sender) => sender.number("retransmits"),
        None => None,
    }
}

fn read_rate(stream: &Json) -> (r: Option<Double>)
    ensures
        r == stream_rate(stream@),
{
    match stream.get("receiver") {
        Some(receiver) => receiver.number("bits_per_second"),
        None => None,
    }
}

/// The report of a transfer over one TCP stream.
#[derive(Clone, Copy, Debug, PartialEq, Eq, Structural)]
pub struct TcpReport {
    pub totals: Totals,
    /// The retransmissions of the first stream. Some builds leave them out of clean runs.
    pub retransmits: Double,
}

/// The report of a transfer over one TCP stream.
pub open spec fn tcp_report(root: JsonView) -> Result<TcpReport, Iperf3Error> {
    match root.member("end"@) {
        None => Err(Iperf3Error::NoEnd),
        Some(end) => match totals_of(end, "sum_received"@) {
            Err(e) => Err(e),
            Ok(totals) => Ok(
                TcpReport {
                    totals,
                    retransmits: or_zero(
                        match end.first_of("streams"@) {
                            Some(stream) => stream_retransmits(stream),
                            None => None,
                        },
                    ),
                },
            ),
        },
    }
}

/// The report of a transfer over one TCP stream.
pub fn read_tcp_report(root: &Json) -> (r: Result<TcpReport, Iperf3Error>)
    ensures
        r == tcp_report(root@),
{
    match root.get("end") {
        None => Err(Iperf3Error::NoEnd),
        Some(end) => match read_totals(end, "sum_received") {
            Err(e) => Err(e),
            Ok(totals) => {
                let retransmits = match end.first("streams") {
                    Some(stream) => read_retransmits(stream),
                    None => None,
                };
                Ok(TcpReport { totals, retransmits: zero_if_none(retransmits) })
            },
        },
    }
}

/// The metrics of a transfer from the host to the guest.
pub open spec fn ingress_metrics(t: TcpReport) -> Map<Seq<char>, Double> {
    none().insert("iperf3_bits_per_sec"@, t.totals.bits_per_second).insert(
        "iperf3_retransmits_count"@,
        t.retransmits,
    ).insert("iperf3_duration_secs"@, t.totals.seconds)
}

/// The metrics of a transfer from the guest to the host.
pub open spec fn egress_metrics(t: TcpReport) -> Map<Seq<char>, Double> {
    none().insert("egress_iperf3_bits_per_sec"@, t.totals.bits_per_second).insert(
        "egress_iperf3_retransmits_count"@,
        t.retransmits,
    ).insert("egress_iperf3_duration_secs"@, t.totals.seconds)
}

/// The metrics in a report of the host client.
pub fn ingress_report(root: &Json) -> (r: Result<Metrics, Iperf3Error>)
    ensures
        match r {
            Ok(m) => {
                &&& tcp_report(root@) matches Ok(t)
                &&& m@ == ingress_metrics(t)
            },
            Err(e) => tcp_report(root@) == Err::<TcpReport, Iperf3Error>(e),
        },
{
    match read_tcp_report(root) {
        Err(e) => Err(e),
        Ok(t) => Ok(
            NameMap::new().with("iperf3_bits_per_sec", t.totals.bits_per_second).with(
                "iperf3_retransmits_count",
                t.retransmits,
            ).with("iperf3_duration_secs", t.totals.seconds),
        ),
    }
}

/// The metrics in a report of the client in the guest.
pub fn egress_report(root: &Json) -> (r: Result<Metrics, Iperf3Error>)
    ensures
        match r {
            Ok(m) => {
                &&& tcp_report(root@) matches Ok(t)
                &&& m@ == egress_metrics(t)
            },
            Err(e) => tcp_report(root@) == Err::<TcpReport, Iperf3Error>(e),
        },
{
    match read_tcp_report(root) {
        Err(e) => Err(e),
        Ok(t) => Ok(
            NameMap::new().with("egress_iperf3_bits_per_sec", t.totals.bits_per_second).with(
                "egress_iperf3_retransmits_count",
                t.retransmits,
            ).with("egress_iperf3_duration_secs", t.totals.seconds),
        ),
    }
}

/// The metrics in what the host client printed.
pub fn parse_iperf3_json(text: &str) -> (r: Result<Metrics, Iperf3Error>)
    ensures
        match document(text@) {
            None => r is Err && r->Err_0 == Iperf3Error::NotJson,
            Some(root) => match r {
                Ok(m) => {
                    &&& tcp_report(root) matches Ok(t)
                    &&& m@ == ingress_metrics(t)
                },
                Err(e) => tcp_report(root) == Err::<TcpReport, Iperf3Error>(e),
            },
        },
{
    match parse(text) {
        None => Err(Iperf3Error::NotJson),
        Some(root) => ingress_report(&root),
    }
}

/// The metrics in what the client in the guest printed.
pub fn parse_iperf3_egress_json(text: &str) -> (r: Result<Metrics, Iperf3Error>)
    ensures
        match document(text@) {
            None => r is Err && r->Err_0 == Iperf3Error::NotJson,
            Some(root) => match r {
                Ok(m) => {
                    &&& tcp_report(root) matches Ok(t)
                    &&& m@ == egress_metrics(t)
                },
                Err(e) => tcp_report(root) == Err::<TcpReport, Iperf3Error>(e),
            },
        },
{
    match parse(text) {
        None => Err(Iperf3Error::NotJson),
        Some(root) => egress_report(&root),
    }
}

/// The report of a UDP transfer.
#[derive(Clone, Copy, Debug, PartialEq, Eq, Structural)]
pub struct UdpReport {
    pub totals: Totals,
    /// The percentage of lost datagrams, zero where the report does not say.
    pub lost_percent: Double,
}

/// The report of a UDP transfer.
pub open spec fn udp_report(root: JsonView) -> Result<UdpReport, Iperf3Error> {
    match root.member("end"@) {
        None => Err(Iperf3Error::NoEnd),
        Some(end) => match (totals_of(end, "sum"@), end.member("sum"@)) {
            (Ok(totals), Some(sum)) => Ok(
                UdpReport { totals, lost_percent: or_zero(sum.number_at("lost_percent"@)) },
            ),
            (Err(e), _) => Err(e),
            (_, None) => Err(Iperf3Error::NoSum),
        },
    }
}

/// The report of a UDP transfer.
pub fn read_udp_report(root: &Json) -> (r: Result<UdpReport, Iperf3Error>)
    ensures
        r == udp_report(root@),
{
    match root.get("end") {
        None => Err(Iperf3Error::NoEnd),
        Some(end) => match (read_totals(end, "sum"), end.get("sum")) {
            (Ok(totals), Some(sum)) => {
                let lost = sum.number("lost_percent");
                Ok(UdpReport { totals, lost_percent: zero_if_none(lost) })
            },
            (Err(e), _) => Err(e),
            (_, None) => Err(Iperf3Error::NoSum),
        },
    }
}

/// The metrics of a UDP transfer.
pub open spec fn udp_metrics(t: UdpReport) -> Map<Seq<char>, Double> {
    none().insert("udp_bits_per_sec"@, t.totals.bits_per_second).insert(
        "udp_loss_pct"@,
        t.lost_percent,
    ).insert("udp_duration_secs"@, t.totals.seconds)
}

/// The metrics in a report of a UDP client.
pub fn udp_metrics_report(root: &Json) -> (r: Result<Metrics, Iperf3Error>)
    ensures
        match r {
            Ok(m) => {
                &&& udp_report(root@) matches Ok(t)
                &&& m@ == udp_metrics(t)
            },
            Err(e) => udp_report(root@) == Err::<UdpReport, Iperf3Error>(e),
        },
{
    match read_udp_report(root) {
        Err(e) => Err(e),
        Ok(t) => Ok(
            NameMap::new().with("udp_bits_per_sec", t.totals.bits_per_second).with(
                "udp_loss_pct",
                t.lost_percent,
            ).with("udp_duration_secs", t.totals.seconds),
        ),
    }
}

/// The metrics in what a UDP client printed.
pub fn parse_iperf3_udp_json(text: &str) -> (r: Result<Metrics, Iperf3Error>)
    ensures
        match document(text@) {
            None => r is Err && r->Err_0 == Iperf3Error::NotJson,
            Some(root) => match r {
                Ok(m) => {
                    &&& udp_report(root) matches Ok(t)
                    &&& m@ == udp_metrics(t)
                },
                Err(e) => udp_report(root) == Err::<UdpReport, Iperf3Error>(e),
            },
        },
{
    match parse(text) {
        None => Err(Iperf3Error::NotJson),
        Some(root) => udp_metrics_report(&root),
    }
}

/// The rates of the streams that have one, in order.
pub open spec fn stream_rates(streams: Seq<JsonView>) -> Seq<Double>
    decreases streams.len(),
{
    if streams.len() == 0 {
        Seq::empty()
    } else {
        match stream_rate(streams.last()) {
            Some(x) => stream_rates(streams.drop_last()).push(x),
            None => stream_rates(streams.drop_last()),
        }
    }
}

/// The retransmissions of the streams that report them, in order.
pub open spec fn all_retransmits(streams: Seq<JsonView>) -> Seq<Double>
    decreases streams.len(),
{
    if streams.len() == 0 {
        Seq::empty()
    } else {
        match stream_retransmits(streams.last()) {
            Some(x) => all_retransmits(streams.drop_last()).push(x),
            None => all_retransmits(streams.drop_last()),
        }
    }
}

/// The report of a transfer over several TCP streams.
pub struct ParallelReport {
    pub totals: Totals,
    /// The rate of each stream.
    pub rates: Vec<Double>,
    /// The retransmissions of each stream that reports them.
    pub retransmits: Vec<Double>,
}

/// The items under `.end.streams`.
pub open spec fn streams_of(end: JsonView) -> Option<Seq<JsonView>> {
    match end.member("streams"@) {
        Some(streams) => streams.items(),
        None => None,
    }
}

/// Whether a report of a transfer over several TCP streams holds everything that is expected,
/// and if not, what is missing first.
pub open spec fn parallel_totals(root: JsonView) -> Result<Totals, Iperf3Error> {
    match root.member("end"@) {
        None => Err(Iperf3Error::NoEnd),
        Some(end) => match totals_of(end, "sum_received"@) {
            Err(e) => Err(e),
            Ok(totals) => match streams_of(end) {
                Some(_) => Ok(totals),
                None => Err(Iperf3Error::NoStreams),
            },
        },
    }
}

/// The streams of a report that holds everything that is expected.
pub open spec fn parallel_streams(root: JsonView) -> Seq<JsonView> {
    match root.member("end"@) {
        Some(end) => match streams_of(end) {
            Some(list) => list,
            None => Seq::empty(),
        },
        None => Seq::empty(),
    }
}

/// The report of a transfer over several TCP streams.
pub fn read_parallel_report(root: &Json) -> (r: Result<ParallelReport, Iperf3Error>)
    ensures
        match r {
            Ok(p) => {
                &&& parallel_totals(root@) == Ok::<Totals, Iperf3Error>(p.totals)
                &&& p.rates@ == stream_rates(parallel_streams(root@))
                &&& p.retransmits@ == all_retransmits(parallel_streams(root@))
            },
            Err(e) => parallel_totals(root@) == Err::<Totals, Iperf3Error>(e),
        },
{
    let end = match root.get("end") {
        None => {
            return Err(Iperf3Error::NoEnd);
        },
        Some(end) => end,
    };
    let totals = match read_totals(end, "sum_received") {
        Err(e) => {
            return Err(e);
        },
        Ok(totals) => totals,
    };
    let items = match end.get("streams") {
        Some(streams) => streams.as_array(),
        None => None,
    };
    let items = match items {
        None => {
            return Err(Iperf3Error::NoStreams);
        },
        Some(items) => items,
    };
    let ghost list = parallel_streams(root@);
    let mut rates: Vec<Double> = Vec::new();
    let mut retransmits: Vec<Double> = Vec::new();
    let mut i: usize = 0;
    assert(list.take(0) == Seq::<JsonView>::empty());
    while i < items.len()
        invariant
            i <= items.len() == list.len(),
            forall|k: int| 0 <= k < list.len() ==> #[trigger] list[k] == items@[k]@,
            rates@ == stream_rates(list.take(i as int)),
            retransmits@ == all_retransmits(list.take(i as int)),
        decreases items.len() - i,
    {
        assert(list.take(i + 1).drop_last() == list.take(i as int));
        assert(list.take(i + 1).last() == list[i as int]);
        if let Some(x) = read_rate(&items[i]) {
            rates.push(x);
        }
        if let Some(x) = read_retransmits(&items[i]) {
            retransmits.push(x);
        }
        i = i + 1;
    }
    assert(list.take(list.len() as int) == list);
    Ok(ParallelReport { totals, rates, retransmits })
}

/// The mean rate of the streams: that of the only one, or zero, where there are fewer than two.
pub open spec fn mean_rate(rates: Seq<Double>) -> Double {
    if rates.len() > 1 {
        mean_of(rates)
    } else if rates.len() == 1 {
        rates[0]
    } else {
        Double::of(false, 0)
    }
}

/// The metrics of a transfer over several TCP streams.
pub open spec fn parallel_metrics(totals: Totals, streams: Seq<JsonView>) -> Map<
    Seq<char>,
    Double,
> {
    let rates = stream_rates(streams);
    none().insert("parallel_iperf3_bits_per_sec"@, totals.bits_per_second).insert(
        "parallel_iperf3_per_stream_mean_bps"@,
        mean_rate(rates),
    ).insert("parallel_iperf3_per_stream_stdev_bps"@, deviation_of(rates)).insert(
        "parallel_iperf3_retransmits_count"@,
        total(all_retransmits(streams)),
    ).insert("parallel_iperf3_streams_count"@, Double::integer(rates.len() as int)).insert(
        "parallel_iperf3_duration_secs"@,
        totals.seconds,
    )
}

/// The metrics in a report of a client with several streams.
pub fn parallel_report(root: &Json) -> (r: Result<Metrics, Iperf3Error>)
    ensures
        match r {
            Ok(m) => {
                &&& parallel_totals(root@) matches Ok(totals)
                &&& m@ == parallel_metrics(totals, parallel_streams(root@))
            },
            Err(e) => parallel_totals(root@) == Err::<Totals, Iperf3Error>(e),
        },
{
    let p = match read_parallel_report(root) {
        Err(e) => {
            return Err(e);
        },
        Ok(p) => p,
    };
    let rate: Double = if p.rates.len() > 1 {
        mean(&p.rates)
    } else if p.rates.len() == 1 {
        p.rates[0]
    } else {
        Double::from_bits(0)
    };
    let m = NameMap::new().with("parallel_iperf3_bits_per_sec", p.totals.bits_per_second).with(
        "parallel_iperf3_per_stream_mean_bps",
        rate,
    ).with("parallel_iperf3_per_stream_stdev_bps", deviation(&p.rates)).with(
        "parallel_iperf3_retransmits_count",
        sum_numbers(&p.retransmits),
    ).with("parallel_iperf3_streams_count", Double::from_u64(p.rates.len() as u64)).with(
        "parallel_iperf3_duration_secs",
        p.totals.seconds,
    );
    Ok(m)
}

/// The metrics in what a client with several streams printed.
pub fn parse_iperf3_parallel_json(text: &str) -> (r: Result<Metrics, Iperf3Error>)
    ensures
        match document(text@) {
            None => r is Err && r->Err_0 == Iperf3Error::NotJson,
            Some(root) => match r {
                Ok(m) => {
                    &&& parallel_totals(root) matches Ok(totals)
                    &&& m@ == parallel_metrics(totals, parallel_streams(root))
                },
                Err(e) => parallel_totals(root) == Err::<Totals, Iperf3Error>(e),
            },
        },
{
    match parse(text) {
        None => Err(Iperf3Error::NotJson),
        Some(root) => parallel_report(&root),
    }
}

/// Whether the member `name` of an object is the number `x`.
pub open spec fn holds_number(v: JsonView, name: Seq<char>, x: Double) -> bool {
    v.member(name) == Some(JsonView::Number(Some(x)))
}

/// Whether the member `name` of an object is a number.
pub open spec fn has_number(v: JsonView, name: Seq<char>) -> bool {
    match v.member(name) {
        Some(JsonView::Number(Some(_))) => true,
        _ => false,
    }
}

proof fn lemma_ingress_names()
    ensures
        "iperf3_bits_per_sec"@ != "iperf3_retransmits_count"@,
        "iperf3_bits_per_sec"@ != "iperf3_duration_secs"@,
        "iperf3_retransmits_count"@ != "iperf3_duration_secs"@,
{
    reveal_strlit("iperf3_bits_per_sec");
    reveal_strlit("iperf3_retransmits_count");
    reveal_strlit("iperf3_duration_secs");
    assert("iperf3_bits_per_sec"@.len() != "iperf3_retransmits_count"@.len());
    assert("iperf3_bits_per_sec"@.len() != "iperf3_duration_secs"@.len());
    assert("iperf3_retransmits_count"@.len() != "iperf3_duration_secs"@.len());
}

/// The rate and the duration of a transfer from the host to the guest are the numbers at
/// `.end.sum_received.bits_per_second` and `.end.sum_received.seconds`, and its retransmissions are
/// the number at `.end.streams[0].sender.retransmits`, or zero where there is none. There are no
/// other metrics.
pub proof fn law_ingress_metrics_are_reported(
    root: JsonView,
    end: JsonView,
    sum: JsonView,
    streams: Seq<JsonView>,
    sender: JsonView,
    t: TcpReport,
)
    requires
        root.member("end"@) == Some(end),
        end.member("sum_received"@) == Some(sum),
        tcp_report(root) == Ok::<TcpReport, Iperf3Error>(t),
    ensures
        holds_number(sum, "bits_per_second"@, ingress_metrics(t)["iperf3_bits_per_sec"@]),
        holds_number(sum, "seconds"@, ingress_metrics(t)["iperf3_duration_secs"@]),
        ({
            &&& end.member("streams"@) == Some(JsonView::Array(streams))
            &&& streams.len() > 0
            &&& streams[0].member("sender"@) == Some(sender)
            &&& has_number(sender, "retransmits"@)
        }) ==> holds_number(sender, "retransmits"@, ingress_metrics(t)["iperf3_retransmits_count"@]),
        end.first_of("streams"@) is None ==> ingress_metrics(t)["iperf3_retransmits_count"@] == (Double { bits: 0 }),
        end.member("streams"@) == Some(JsonView::Array(streams)) && streams.len() > 0
            && streams[0].member("sender"@) is None ==> ingress_metrics(t)["iperf3_retransmits_count"@] == (
        Double { bits: 0 }),
        end.member("streams"@) == Some(JsonView::Array(streams)) && streams.len() > 0
            && streams[0].member("sender"@) == Some(sender) && !has_number(sender, "retransmits"@)
            ==> ingress_metrics(t)["iperf3_retransmits_count"@] == (Double { bits: 0 }),
        forall|n: Seq<char>| #[trigger]
            ingress_metrics(t).contains_key(n) <==> n == "iperf3_bits_per_sec"@
                || n == "iperf3_retransmits_count"@
                || n == "iperf3_duration_secs"@,
{
    lemma_ingress_names();
}

proof fn lemma_egress_names()
    ensures
        "egress_iperf3_bits_per_sec"@ != "egress_iperf3_retransmits_count"@,
        "egress_iperf3_bits_per_sec"@ != "egress_iperf3_duration_secs"@,
        "egress_iperf3_retransmits_count"@ != "egress_iperf3_duration_secs"@,
{
    reveal_strlit("egress_iperf3_bits_per_sec");
    reveal_strlit("egress_iperf3_retransmits_count");
    reveal_strlit("egress_iperf3_duration_secs");
    assert("egress_iperf3_bits_per_sec"@.len() != "egress_iperf3_retransmits_count"@.len());
    assert("egress_iperf3_bits_per_sec"@.len() != "egress_iperf3_duration_secs"@.len());
    assert("egress_iperf3_retransmits_count"@.len() != "egress_iperf3_duration_secs"@.len());
}

/// The rate and the duration of a transfer from the guest to the host are the numbers at
/// `.end.sum_received.bits_per_second` and `.end.sum_received.seconds`, and its retransmissions are
/// the number at `.end.streams[0].sender.retransmits`, or zero where there is none. There are no
/// other metrics.
pub proof fn law_egress_metrics_are_reported(
    root: JsonView,
    end: JsonView,
    sum: JsonView,
    streams: Seq<JsonView>,
    sender: JsonView,
    t: TcpReport,
)
    requires
        root.member("end"@) == Some(end),
        end.member("sum_received"@) == Some(sum),
        tcp_report(root) == Ok::<TcpReport, Iperf3Error>(t),
    ensures
        holds_number(sum, "bits_per_second"@, egress_metrics(t)["egress_iperf3_bits_per_sec"@]),
        holds_number(sum, "seconds"@, egress_metrics(t)["egress_iperf3_duration_secs"@]),
        ({
            &&& end.member("streams"@) == Some(JsonView::Array(streams))
            &&& streams.len() > 0
            &&& streams[0].member("sender"@) == Some(sender)
            &&& has_number(sender, "retransmits"@)
        }) ==> holds_number(sender, "retransmits"@, egress_metrics(t)["egress_iperf3_retransmits_count"@]),
        end.first_of("streams"@) is None ==> egress_metrics(t)["egress_iperf3_retransmits_count"@] == (Double { bits: 0 }),
        end.member("streams"@) == Some(JsonView::Array(streams)) && streams.len() > 0
            && streams[0].member("sender"@) is None ==> egress_metrics(t)["egress_iperf3_retransmits_count"@] == (
        Double { bits: 0 }),
        end.member("streams"@) == Some(JsonView::Array(streams)) && streams.len() > 0
            && streams[0].member("sender"@) == Some(sender) && !has_number(sender, "retransmits"@)
            ==> egress_metrics(t)["egress_iperf3_retransmits_count"@] == (Double { bits: 0 }),
        forall|n: Seq<char>| #[trigger]
            egress_metrics(t).contains_key(n) <==> n == "egress_iperf3_bits_per_sec"@
                || n == "egress_iperf3_retransmits_count"@
                || n == "egress_iperf3_duration_secs"@,
{
    lemma_egress_names();
}

/// A transfer from the guest to the host has the metrics of one from the host to the guest, under
/// names with a prefix.
pub proof fn law_both_directions_agree(t: TcpReport)
    ensures
        egress_metrics(t)["egress_"@ + "iperf3_bits_per_sec"@] == ingress_metrics(
            t,
        )["iperf3_bits_per_sec"@],
        egress_metrics(t)["egress_"@ + "iperf3_retransmits_count"@] == ingress_metrics(
            t,
        )["iperf3_retransmits_count"@],
        egress_metrics(t)["egress_"@ + "iperf3_duration_secs"@] == ingress_metrics(
            t,
        )["iperf3_duration_secs"@],
{
    lemma_ingress_names();
    lemma_egress_names();
    reveal_strlit("egress_");
    assert("egress_"@ + "iperf3_bits_per_sec"@ =~= "egress_iperf3_bits_per_sec"@) by {
        reveal_strlit("iperf3_bits_per_sec");
        reveal_strlit("egress_iperf3_bits_per_sec");
    }
    assert("egress_"@ + "iperf3_retransmits_count"@ =~= "egress_iperf3_retransmits_count"@) by {
        reveal_strlit("iperf3_retransmits_count");
        reveal_strlit("egress_iperf3_retransmits_count");
    }
    assert("egress_"@ + "iperf3_duration_secs"@ =~= "egress_iperf3_duration_secs"@) by {
        reveal_strlit("iperf3_duration_secs");
        reveal_strlit("egress_iperf3_duration_secs");
    }
}

/// The report of a transfer over one stream is refused for the first value that it lacks, and
/// accepted where it has the rate and the duration.
pub proof fn law_tcp_report_names_the_first_missing(root: JsonView, end: JsonView, sum: JsonView)
    ensures
        tcp_report(root) == Err::<TcpReport, Iperf3Error>(Iperf3Error::NoEnd) <==> root.member(
            "end"@,
        ) is None,
        root.member("end"@) == Some(end) ==> (tcp_report(root) == Err::<TcpReport, Iperf3Error>(
            Iperf3Error::NoSum,
        ) <==> end.member("sum_received"@) is None),
        root.member("end"@) == Some(end) && end.member("sum_received"@) == Some(sum) ==> {
            &&& tcp_report(root) == Err::<TcpReport, Iperf3Error>(Iperf3Error::NoBitsPerSecond)
                <==> !has_number(sum, "bits_per_second"@)
            &&& tcp_report(root) == Err::<TcpReport, Iperf3Error>(Iperf3Error::NoSeconds)
                <==> has_number(sum, "bits_per_second"@) && !has_number(sum, "seconds"@)
            &&& tcp_report(root) is Ok <==> has_number(sum, "bits_per_second"@) && has_number(
                sum,
                "seconds"@,
            )
        },
{
}

proof fn lemma_udp_names()
    ensures
        "udp_bits_per_sec"@ != "udp_loss_pct"@,
        "udp_bits_per_sec"@ != "udp_duration_secs"@,
        "udp_loss_pct"@ != "udp_duration_secs"@,
{
    reveal_strlit("udp_bits_per_sec");
    reveal_strlit("udp_loss_pct");
    reveal_strlit("udp_duration_secs");
    assert("udp_bits_per_sec"@.len() != "udp_loss_pct"@.len());
    assert("udp_bits_per_sec"@.len() != "udp_duration_secs"@.len());
    assert("udp_loss_pct"@.len() != "udp_duration_secs"@.len());
}

/// The rate, the loss and the duration of a UDP transfer are the numbers at
/// `.end.sum.bits_per_second`, `.end.sum.lost_percent` and `.end.sum.seconds`; a loss that is not
/// reported is zero. There are no other metrics.
pub proof fn law_udp_metrics_are_reported(
    root: JsonView,
    end: JsonView,
    sum: JsonView,
    t: UdpReport,
)
    requires
        root.member("end"@) == Some(end),
        end.member("sum"@) == Some(sum),
        udp_report(root) == Ok::<UdpReport, Iperf3Error>(t),
    ensures
        holds_number(sum, "bits_per_second"@, udp_metrics(t)["udp_bits_per_sec"@]),
        holds_number(sum, "seconds"@, udp_metrics(t)["udp_duration_secs"@]),
        has_number(sum, "lost_percent"@) ==> holds_number(
            sum,
            "lost_percent"@,
            udp_metrics(t)["udp_loss_pct"@],
        ),
        !has_number(sum, "lost_percent"@) ==> udp_metrics(t)["udp_loss_pct"@] == (Double { bits: 0 }),
        forall|n: Seq<char>| #[trigger]
            udp_metrics(t).contains_key(n) <==> n == "udp_bits_per_sec"@
                || n == "udp_loss_pct"@
                || n == "udp_duration_secs"@,
{
    lemma_udp_names();
}

/// The report of a UDP transfer is refused for the first value that it lacks, and accepted where
/// it has the rate and the duration.
pub proof fn law_udp_report_names_the_first_missing(root: JsonView, end: JsonView, sum: JsonView)
    ensures
        udp_report(root) == Err::<UdpReport, Iperf3Error>(Iperf3Error::NoEnd) <==> root.member(
            "end"@,
        ) is None,
        root.member("end"@) == Some(end) ==> (udp_report(root) == Err::<UdpReport, Iperf3Error>(
            Iperf3Error::NoSum,
        ) <==> end.member("sum"@) is None),
        root.member("end"@) == Some(end) && end.member("sum"@) == Some(sum) ==> {
            &&& udp_report(root) == Err::<UdpReport, Iperf3Error>(Iperf3Error::NoBitsPerSecond)
                <==> !has_number(sum, "bits_per_second"@)
            &&& udp_report(root) == Err::<UdpReport, Iperf3Error>(Iperf3Error::NoSeconds)
                <==> has_number(sum, "bits_per_second"@) && !has_number(sum, "seconds"@)
            &&& udp_report(root) is Ok <==> has_number(sum, "bits_per_second"@) && has_number(
                sum,
                "seconds"@,
            )
        },
{
}

/// Whether a stream reports the rate `x` of its receiver.
pub open spec fn receives(stream: JsonView, x: Double) -> bool {
    exists|receiver: JsonView|
        stream.member("receiver"@) == Some(receiver) && #[trigger] holds_number(
            receiver,
            "bits_per_second"@,
            x,
        )
}

/// Whether a stream reports `x` retransmissions of its sender.
pub open spec fn retransmits(stream: JsonView, x: Double) -> bool {
    exists|sender: JsonView|
        stream.member("sender"@) == Some(sender) && #[trigger] holds_number(
            sender,
            "retransmits"@,
            x,
        )
}

proof fn lemma_stream_values(stream: JsonView, x: Double)
    ensures
        stream_rate(stream) == Some(x) <==> receives(stream, x),
        stream_retransmits(stream) == Some(x) <==> retransmits(stream, x),
{
    if stream_rate(stream) == Some(x) {
        assert(holds_number(stream.member("receiver"@)->0, "bits_per_second"@, x));
    }
    if stream_retransmits(stream) == Some(x) {
        assert(holds_number(stream.member("sender"@)->0, "retransmits"@, x));
    }
}

/// Where every stream reports the rate of its receiver, the rates are these, stream by stream; a
/// stream that reports none is left out without a trace.
pub proof fn law_rates_of_streams(streams: Seq<JsonView>, rates: Seq<Double>)
    ensures
        (streams.len() == rates.len() && forall|i: int|
            0 <= i < rates.len() ==> receives(#[trigger] streams[i], rates[i])) ==> stream_rates(
            streams,
        ) == rates,
        streams.len() > 0 && (forall|x: Double| !receives(streams.last(), x)) ==> stream_rates(
            streams,
        ) == stream_rates(streams.drop_last()),
        forall|x: Double| #[trigger]
            receives(streams.last(), x) && streams.len() > 0 ==> stream_rates(streams)
                == stream_rates(streams.drop_last()).push(x),
    decreases streams.len(),
{
    if streams.len() > 0 {
        let last = streams.last();
        assert forall|x: Double| #[trigger] receives(last, x) implies stream_rates(streams)
            == stream_rates(streams.drop_last()).push(x) by {
            lemma_stream_values(last, x);
        }
        if stream_rate(last) is Some {
            lemma_stream_values(last, stream_rate(last)->0);
        }
        if streams.len() == rates.len() && forall|i: int|
            0 <= i < rates.len() ==> receives(#[trigger] streams[i], rates[i]) {
            let front = streams.drop_last();
            assert forall|i: int| 0 <= i < rates.drop_last().len() implies receives(
                #[trigger] front[i],
                rates.drop_last()[i],
            ) by {
                assert(receives(streams[i], rates[i]));
            }
            law_rates_of_streams(front, rates.drop_last());
            assert(receives(streams[streams.len() - 1], rates.last()));
            assert(rates.drop_last().push(rates.last()) =~= rates);
        }
    } else {
        assert(rates.len() == 0 ==> stream_rates(streams) =~= rates);
    }
}

/// Where every stream reports the retransmissions of its sender, they are these, stream by stream;
/// a stream that reports none is left out without a trace.
pub proof fn law_retransmits_of_streams(streams: Seq<JsonView>, counts: Seq<Double>)
    ensures
        (streams.len() == counts.len() && forall|i: int|
            0 <= i < counts.len() ==> retransmits(#[trigger] streams[i], counts[i]))
            ==> all_retransmits(streams) == counts,
        streams.len() > 0 && (forall|x: Double| !retransmits(streams.last(), x)) ==> all_retransmits(
            streams,
        ) == all_retransmits(streams.drop_last()),
        forall|x: Double| #[trigger]
            retransmits(streams.last(), x) && streams.len() > 0 ==> all_retransmits(streams)
                == all_retransmits(streams.drop_last()).push(x),
    decreases streams.len(),
{
    if streams.len() > 0 {
        let last = streams.last();
        assert forall|x: Double| #[trigger] retransmits(last, x) implies all_retransmits(streams)
            == all_retransmits(streams.drop_last()).push(x) by {
            lemma_stream_values(last, x);
        }
        if stream_retransmits(last) is Some {
            lemma_stream_values(last, stream_retransmits(last)->0);
        }
        if streams.len() == counts.len() && forall|i: int|
            0 <= i < counts.len() ==> retransmits(#[trigger] streams[i], counts[i]) {
            let front = streams.drop_last();
            assert forall|i: int| 0 <= i < counts.drop_last().len() implies retransmits(
                #[trigger] front[i],
                counts.drop_last()[i],
            ) by {
                assert(retransmits(streams[i], counts[i]));
            }
            law_retransmits_of_streams(front, counts.drop_last());
            assert(retransmits(streams[streams.len() - 1], counts.last()));
            assert(counts.drop_last().push(counts.last()) =~= counts);
        }
    } else {
        assert(counts.len() == 0 ==> all_retransmits(streams) =~= counts);
    }
}

proof fn lemma_parallel_names()
    ensures
        "parallel_iperf3_bits_per_sec"@ != "parallel_iperf3_per_stream_mean_bps"@,
        "parallel_iperf3_bits_per_sec"@ != "parallel_iperf3_per_stream_stdev_bps"@,
        "parallel_iperf3_bits_per_sec"@ != "parallel_iperf3_retransmits_count"@,
        "parallel_iperf3_bits_per_sec"@ != "parallel_iperf3_streams_count"@,
        "parallel_iperf3_bits_per_sec"@ != "parallel_iperf3_duration_secs"@,
        "parallel_iperf3_per_stream_mean_bps"@ != "parallel_iperf3_per_stream_stdev_bps"@,
        "parallel_iperf3_per_stream_mean_bps"@ != "parallel_iperf3_retransmits_count"@,
        "parallel_iperf3_per_stream_mean_bps"@ != "parallel_iperf3_streams_count"@,
        "parallel_iperf3_per_stream_mean_bps"@ != "parallel_iperf3_duration_secs"@,
        "parallel_iperf3_per_stream_stdev_bps"@ != "parallel_iperf3_retransmits_count"@,
        "parallel_iperf3_per_stream_stdev_bps"@ != "parallel_iperf3_streams_count"@,
        "parallel_iperf3_per_stream_stdev_bps"@ != "parallel_iperf3_duration_secs"@,
        "parallel_iperf3_retransmits_count"@ != "parallel_iperf3_streams_count"@,
        "parallel_iperf3_retransmits_count"@ != "parallel_iperf3_duration_secs"@,
        "parallel_iperf3_streams_count"@ != "parallel_iperf3_duration_secs"@,
{
    reveal_strlit("parallel_iperf3_bits_per_sec");
    reveal_strlit("parallel_iperf3_per_stream_mean_bps");
    reveal_strlit("parallel_iperf3_per_stream_stdev_bps");
    reveal_strlit("parallel_iperf3_retransmits_count");
    reveal_strlit("parallel_iperf3_streams_count");
    reveal_strlit("parallel_iperf3_duration_secs");
    assert("parallel_iperf3_bits_per_sec"@.len() != "parallel_iperf3_per_stream_mean_bps"@.len());
    assert("parallel_iperf3_bits_per_sec"@.len() != "parallel_iperf3_per_stream_stdev_bps"@.len());
    assert("parallel_iperf3_bits_per_sec"@.len() != "parallel_iperf3_retransmits_count"@.len());
    assert("parallel_iperf3_bits_per_sec"@.len() != "parallel_iperf3_streams_count"@.len());
    assert("parallel_iperf3_bits_per_sec"@.len() != "parallel_iperf3_duration_secs"@.len());
    assert("parallel_iperf3_per_stream_mean_bps"@.len() != "parallel_iperf3_per_stream_stdev_bps"@.len());
    assert("parallel_iperf3_per_stream_mean_bps"@.len() != "parallel_iperf3_retransmits_count"@.len());
    assert("parallel_iperf3_per_stream_mean_bps"@.len() != "parallel_iperf3_streams_count"@.len());
    assert("parallel_iperf3_per_stream_mean_bps"@.len() != "parallel_iperf3_duration_secs"@.len());
    assert("parallel_iperf3_per_stream_stdev_bps"@.len() != "parallel_iperf3_retransmits_count"@.len());
    assert("parallel_iperf3_per_stream_stdev_bps"@.len() != "parallel_iperf3_streams_count"@.len());
    assert("parallel_iperf3_per_stream_stdev_bps"@.len() != "parallel_iperf3_duration_secs"@.len());
    assert("parallel_iperf3_retransmits_count"@.len() != "parallel_iperf3_streams_count"@.len());
    assert("parallel_iperf3_retransmits_count"@.len() != "parallel_iperf3_duration_secs"@.len());
    assert("parallel_iperf3_streams_count"@[16] != "parallel_iperf3_duration_secs"@[16]);
}

/// The rate and the duration of a transfer over several streams are the numbers at
/// `.end.sum_received.bits_per_second` and `.end.sum_received.seconds`. The rest is told of the
/// streams under `.end.streams`: how many of them report a rate, the mean and the deviation of
/// these rates, and the sum of the retransmissions. There are no other metrics.
pub proof fn law_parallel_metrics_are_reported(
    root: JsonView,
    end: JsonView,
    sum: JsonView,
    streams: Seq<JsonView>,
    totals: Totals,
)
    requires
        root.member("end"@) == Some(end),
        end.member("sum_received"@) == Some(sum),
        end.member("streams"@) == Some(JsonView::Array(streams)),
        parallel_totals(root) == Ok::<Totals, Iperf3Error>(totals),
    ensures
        parallel_streams(root) == streams,
        holds_number(
            sum,
            "bits_per_second"@,
            parallel_metrics(totals, streams)["parallel_iperf3_bits_per_sec"@],
        ),
        holds_number(
            sum,
            "seconds"@,
            parallel_metrics(totals, streams)["parallel_iperf3_duration_secs"@],
        ),
        parallel_metrics(totals, streams)["parallel_iperf3_streams_count"@] == Double::integer(
            stream_rates(streams).len() as int,
        ),
        parallel_metrics(totals, streams)["parallel_iperf3_retransmits_count"@] == total(
            all_retransmits(streams),
        ),
        parallel_metrics(totals, streams)["parallel_iperf3_per_stream_stdev_bps"@] == deviation_of(
            stream_rates(streams),
        ),
        stream_rates(streams).len() > 1 ==> parallel_metrics(
            totals,
            streams,
        )["parallel_iperf3_per_stream_mean_bps"@] == mean_of(stream_rates(streams)),
        stream_rates(streams).len() == 1 ==> parallel_metrics(
            totals,
            streams,
        )["parallel_iperf3_per_stream_mean_bps"@] == stream_rates(streams)[0],
        stream_rates(streams).len() == 0 ==> parallel_metrics(
            totals,
            streams,
        )["parallel_iperf3_per_stream_mean_bps"@] == (Double { bits: 0 }),
        forall|n: Seq<char>| #[trigger]
            parallel_metrics(totals, streams).contains_key(n) <==> n == "parallel_iperf3_bits_per_sec"@
                || n == "parallel_iperf3_per_stream_mean_bps"@
                || n == "parallel_iperf3_per_stream_stdev_bps"@
                || n == "parallel_iperf3_retransmits_count"@
                || n == "parallel_iperf3_streams_count"@
                || n == "parallel_iperf3_duration_secs"@,
{
    lemma_parallel_names();
}

/// The report of a transfer over several streams is refused for the first value that it lacks, and
/// accepted where it has the rate, the duration and the streams.
pub proof fn law_parallel_report_names_the_first_missing(
    root: JsonView,
    end: JsonView,
    sum: JsonView,
)
    ensures
        parallel_totals(root) == Err::<Totals, Iperf3Error>(Iperf3Error::NoEnd) <==> root.member(
            "end"@,
        ) is None,
        root.member("end"@) == Some(end) ==> (parallel_totals(root) == Err::<Totals, Iperf3Error>(
            Iperf3Error::NoSum,
        ) <==> end.member("sum_received"@) is None),
        root.member("end"@) == Some(end) && end.member("sum_received"@) == Some(sum) ==> {
            let listed = end.member("streams"@) matches Some(JsonView::Array(_));
            &&& parallel_totals(root) == Err::<Totals, Iperf3Error>(Iperf3Error::NoBitsPerSecond)
                <==> !has_number(sum, "bits_per_second"@)
            &&& parallel_totals(root) == Err::<Totals, Iperf3Error>(Iperf3Error::NoSeconds)
                <==> has_number(sum, "bits_per_second"@) && !has_number(sum, "seconds"@)
            &&& parallel_totals(root) == Err::<Totals, Iperf3Error>(Iperf3Error::NoStreams)
                <==> has_number(sum, "bits_per_second"@) && has_number(sum, "seconds"@) && !listed
            &&& parallel_totals(root) is Ok <==> has_number(sum, "bits_per_second"@) && has_number(
                sum,
                "seconds"@,
            ) && listed
        },
{
}

/// The mean rate, times the number of streams with a rate, is the exact sum of their rates, but for
/// one part in `2^52` of the sum of their magnitudes for each.
pub proof fn law_mean_rate_is_exact(rates: Seq<Double>)
    requires
        0 < rates.len() <= 0x10_0000_0000_0000,
        all_finite(rates),
        exact_sizes(rates) <= pow2(2096),
    ensures
        mean_rate(rates).finite(),
        0x10_0000_0000_0000 * distance(mean_rate(rates).value() * rates.len(), exact_sum(rates))
            <= rates.len() * exact_sizes(rates) + 0x8_0000_0000_0000 * rates.len(),
{
    if rates.len() > 1 {
        lemma_mean_is_exact(rates);
    } else {
        let front = rates.drop_last();
        assert(rates[0].finite());
        assert(rates.last() == rates[0]);
        assert(front.len() == 0);
        assert(exact_sum(front) == 0 && exact_sizes(front) == 0);
        assert(rates[0].value() * 1 == rates[0].value());
    }
}

} // verus!
