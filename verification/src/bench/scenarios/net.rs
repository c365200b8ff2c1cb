//! TCP throughput from the host into the box, measured with nothing but `nc`.

use crate::bench::clock::Span;
use crate::bench::scenarios::common::{
    add_some, alpine, count, forwarding_options, mib_per_sec, mib_rate, none, with_some,
    BoxSpecView, Command, CommandView, Home, Metrics, Port, Protocol,
};
use crate::bench::scenarios::script::{creates_at, one_box, Script, Step, StepView};
use crate::names::NameMap;
use crate::number::double::Double;
use crate::render::{decimal, decimal_text};
use vstd::prelude::*;

verus! {

/// How much is sent: 32 MiB.
pub const PAYLOAD_BYTES: usize = 33554432;

/// How much is sent at once: 64 KiB.
pub const CHUNK_BYTES: usize = 65536;

/// The port that `nc` listens on.
pub const SINK_PORT: u16 = 9999;

/// How long connecting may take, in seconds.
pub const CONNECT_SECS: u64 = 5;

/// How long sending may take, in seconds.
pub const WRITE_SECS: u64 = 60;

/// `nc` in the box, swallowing what it receives. The `sleep` keeps its input open without ever
/// sending anything.
pub open spec fn sink() -> CommandView {
    CommandView {
        program: "sh"@,
        args: seq!["-c"@, "sleep 60 | nc -l -p "@ + decimal(9999) + " > /dev/null"@],
    }
}

pub fn sink_command() -> (r: Command)
    ensures
        r@ == sink(),
{
    let mut script: String = "sleep 60 | nc -l -p ".to_owned();
    script.append(decimal_text(SINK_PORT as u64).as_str());
    script.append(" > /dev/null");
    Command::new("sh").arg("-c").arg(script.as_str())
}

/// What to do after so many bytes were sent.
#[derive(Clone, Copy, Debug, PartialEq, Eq, Structural)]
pub enum Sending {
    /// Everything was sent.
    Finished,
    /// Send so many bytes more.
    Write { bytes: usize },
    /// Give up: the time is over.
    Stalled,
}

/// What to do after `sent` of `total` bytes were sent in chunks of at most `chunk`.
pub open spec fn sending(sent: int, total: int, chunk: int, time_left: bool) -> Sending {
    if sent >= total {
        Sending::Finished
    } else if !time_left {
        Sending::Stalled
    } else if total - sent < chunk {
        Sending::Write { bytes: (total - sent) as usize }
    } else {
        Sending::Write { bytes: chunk as usize }
    }
}

/// What to do after `sent` of `total` bytes were sent in chunks of at most `chunk`.
pub fn next_chunk(sent: usize, total: usize, chunk: usize, time_left: bool) -> (r: Sending)
    ensures
        r == sending(sent as int, total as int, chunk as int, time_left),
{
    if sent >= total {
        Sending::Finished
    } else if !time_left {
        Sending::Stalled
    } else if total - sent < chunk {
        Sending::Write { bytes: total - sent }
    } else {
        Sending::Write { bytes: chunk }
    }
}

/// How many bytes have been sent after `n` chunks, while there was time.
pub open spec fn sent_after(n: nat, total: int, chunk: int) -> int
    decreases n,
{
    if n == 0 {
        0
    } else {
        let before = sent_after((n - 1) as nat, total, chunk);
        match sending(before, total, chunk, true) {
            Sending::Write { bytes } => before + bytes,
            _ => before,
        }
    }
}

/// While there is time, sending goes on until exactly the whole payload is sent, and never
/// beyond it.
pub proof fn law_payload_is_sent_exactly(n: nat, total: int, chunk: int)
    requires
        0 <= total <= usize::MAX,
        0 < chunk <= usize::MAX,
    ensures
        0 <= sent_after(n, total, chunk) <= total,
        n * chunk < total ==> sent_after(n, total, chunk) == n * chunk,
        n * chunk >= total ==> sent_after(n, total, chunk) == total && sending(
            sent_after(n, total, chunk),
            total,
            chunk,
            true,
        ) == Sending::Finished,
    decreases n,
{
    if n == 0 {
        assert(n * chunk == 0) by (nonlinear_arith)
            requires
                n == 0,
        ;
    } else {
        law_payload_is_sent_exactly((n - 1) as nat, total, chunk);
        assert(n * chunk == (n - 1) * chunk + chunk) by (nonlinear_arith);
    }
}

/// `throughput-net-tcp-sink`.
pub struct NetTcpSink {
    pub home: Home,
}

impl NetTcpSink {
    pub fn new() -> (r: NetTcpSink)
        ensures
            r.home.path is None,
    {
        NetTcpSink { home: Home::new() }
    }

    pub fn name(&self) -> (r: &'static str)
        ensures
            r@ == "throughput-net-tcp-sink"@,
    {
        "throughput-net-tcp-sink"
    }

    /// The steps of an iteration.
    pub fn script(&self, host_port: u16) -> (r: Script)
        ensures
            r@ == seq![
                StepView::Create(
                    BoxSpecView {
                        ports: seq![
                            Port { host: Some(host_port), guest: 9999, protocol: Protocol::Tcp },
                        ],
                        ..alpine()
                    },
                ),
                StepView::Start,
                StepView::Spawn(sink()),
                StepView::Settle(500),
                StepView::Send(host_port, 33554432, 65536),
                StepView::Kill,
                StepView::Await(5),
                StepView::Stop,
            ],
            one_box(r@),
    {
        let r = Script::new().then_run(forwarding_options(host_port, SINK_PORT)).then_do(
            Step::Spawn(sink_command()),
        ).then_do(Step::Settle { ms: 500 }).then_do(
            Step::Send { port: host_port, bytes: PAYLOAD_BYTES, chunk: CHUNK_BYTES },
        ).then_do(Step::Kill).then_do(Step::Await { secs: 5 }).then_do(Step::Stop);
        assert(creates_at(r@, 0));
        r
    }

    /// What an iteration whose time ran out after `sent` bytes fails with.
    pub fn stalled_message(&self, sent: usize) -> (r: String)
        ensures
            r@ == "host-side write stalled — sent "@ + decimal(sent as nat) + "/33554432 bytes within 60s; gvproxy forward to guest:9999 is not draining (nc may have died)"@,
    {
        let mut r: String = "host-side write stalled — sent ".to_owned();
        r.append(decimal_text(sent as u64).as_str());
        r.append(
            "/33554432 bytes within 60s; gvproxy forward to guest:9999 is not draining (nc may have died)",
        );
        r
    }

    /// The metrics of an iteration, given how long sending took.
    pub fn metrics(&self, wall: Span) -> (r: Metrics)
        ensures
            r@ == with_some(
                none(),
                "net_tcp_mb_per_sec"@,
                mib_rate(33554432, wall.milliseconds()),
            ).insert("net_tcp_bytes"@, Double::integer(33554432)).insert(
                "net_tcp_wall_ms"@,
                wall.milliseconds(),
            ),
    {
        let ms: Double = wall.as_ms();
        let m = add_some(NameMap::new(), "net_tcp_mb_per_sec", mib_per_sec(33554432, ms));
        m.with("net_tcp_bytes", count(PAYLOAD_BYTES)).with("net_tcp_wall_ms", ms)
    }
}

} // verus!
