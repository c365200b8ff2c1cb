//! How many TCP connections into the box can be made in a second.

use crate::bench::clock::Span;
use crate::bench::scenarios::common::{
    add_some, alpine, event_rate, forwarding_options, none, per_sec, with_some, BoxSpecView,
    Command, CommandView, Home, Metrics, Port, Protocol,
};
use crate::bench::scenarios::script::{creates_at, one_box, Script, Step, StepView};
use crate::names::NameMap;
use crate::number::double::Double;
use crate::render::{decimal, decimal_text};
use vstd::prelude::*;

verus! {

/// The port that `nc` listens on.
pub const LISTEN_PORT: u16 = 9999;

/// `nc` in the box, accepting one connection after another and closing each at once.
pub open spec fn listener() -> CommandView {
    CommandView {
        program: "sh"@,
        args: seq![
            "-c"@,
            "while true; do nc -l -p "@ + decimal(9999)
                + " -q 0 < /dev/null > /dev/null 2>&1; done"@,
        ],
    }
}

pub fn listener_command() -> (r: Command)
    ensures
        r@ == listener(),
{
    let mut script: String = "while true; do nc -l -p ".to_owned();
    script.append(decimal_text(LISTEN_PORT as u64).as_str());
    script.append(" -q 0 < /dev/null > /dev/null 2>&1; done");
    Command::new("sh").arg("-c").arg(script.as_str())
}

/// `throughput-tcp-cps`.
pub struct TcpCps {
    pub home: Home,
}

impl TcpCps {
    pub fn new() -> (r: TcpCps)
        ensures
            r.home.path is None,
    {
        TcpCps { home: Home::new() }
    }

    pub fn name(&self) -> (r: &'static str)
        ensures
            r@ == "throughput-tcp-cps"@,
    {
        "throughput-tcp-cps"
    }

    /// The steps of an iteration.
    pub fn script(&self, host_port: u16) -> (r: Script)
        ensures
            r@ == seq![
                StepView::Create(
                    BoxSpecView {
                        ports: seq![
                            Port { host: Some(host_port), guest: 9999, protocol: Protocol::Tcp },
                        ],
                        ..alpine()
                    },
                ),
                StepView::Start,
                StepView::Spawn(listener()),
                StepView::Settle(800),
                StepView::Connect(host_port, 3, 2),
                StepView::Kill,
                StepView::Await(3),
                StepView::Stop,
            ],
            one_box(r@),
    {
        let r = Script::new().then_run(forwarding_options(host_port, LISTEN_PORT)).then_do(
            Step::Spawn(listener_command()),
        ).then_do(Step::Settle { ms: 800 }).then_do(
            Step::Connect { port: host_port, secs: 3, attempt_secs: 2 },
        ).then_do(Step::Kill).then_do(Step::Await { secs: 3 }).then_do(Step::Stop);
        assert(creates_at(r@, 0));
        r
    }

    /// The metrics of an iteration: so many connections were made and so many attempts failed.
    pub fn metrics(&self, made: u64, failed: u64, elapsed: Span) -> (r: Metrics)
        ensures
            r@ == with_some(
                none(),
                "tcp_cps_count_per_sec"@,
                event_rate(made as int, elapsed.seconds()),
            ).insert("tcp_cps_total_count"@, Double::integer(made as int)).insert(
                "tcp_cps_errors_count"@,
                Double::integer(failed as int),
            ),
    {
        let m = add_some(NameMap::new(), "tcp_cps_count_per_sec", per_sec(made, elapsed.as_secs()));
        m.with("tcp_cps_total_count", Double::from_u64(made)).with(
            "tcp_cps_errors_count",
            Double::from_u64(failed),
        )
    }
}

} // verus!
