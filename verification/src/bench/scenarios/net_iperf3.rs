//! TCP throughput from the host into the box, measured by `iperf3`.
//!
//! The server runs in the box behind a forwarded port, the client on the host. Without `iperf3`
//! on the host the iteration is skipped and its sample says so.

use crate::bench::scenarios::common::{
    alpine, check_exit, check_status, code_text, forwarding_options, install, install_command,
    integer_text, none, skipped, BoxSpecView, Command, CommandView, Home, Metrics, Port, Protocol,
};
use crate::bench::scenarios::iperf3::{
    ingress_metrics, parse_iperf3_json, tcp_report, Iperf3Error, TcpReport,
};
use crate::bench::scenarios::script::{
    creates_at, one_box, prepared_if, Script, Step, StepView,
};
use crate::json::document;
use crate::number::double::Double;
use crate::render::{decimal, decimal_text};
use crate::text::joined;
use vstd::prelude::*;

verus! {

/// The port that the server in the box listens on.
pub const GUEST_PORT: u16 = 5201;

/// How long a transfer lasts, in seconds.
pub const TRANSFER_SECS: u64 = 5;

/// The server in the box, which ends after one client.
pub open spec fn server() -> CommandView {
    CommandView { program: "iperf3"@, args: seq!["-s"@, "-1"@, "-p"@, decimal(5201)] }
}

pub fn server_command() -> (r: Command)
    ensures
        r@ == server(),
{
    Command::new("iperf3").arg("-s").arg("-1").arg("-p").arg(
        decimal_text(GUEST_PORT as u64).as_str(),
    )
}

/// The client on the host.
pub open spec fn host_client(port: nat) -> CommandView {
    CommandView {
        program: "iperf3"@,
        args: seq!["-c"@, "127.0.0.1"@, "-p"@, decimal(port), "-J"@, "-t"@, decimal(5)],
    }
}

pub fn host_client_command(port: u16) -> (r: Command)
    ensures
        r@ == host_client(port as nat),
{
    Command::new("iperf3").arg("-c").arg("127.0.0.1").arg("-p").arg(
        decimal_text(port as u64).as_str(),
    ).arg("-J").arg("-t").arg(decimal_text(TRANSFER_SECS).as_str())
}

/// `throughput-net-iperf3`.
pub struct NetIperf3 {
    pub home: Home,
    pub iperf3_installed: bool,
}

impl NetIperf3 {
    pub fn new() -> (r: NetIperf3)
        ensures
            r.home.path is None,
            !r.iperf3_installed,
    {
        NetIperf3 { home: Home::new(), iperf3_installed: false }
    }

    pub fn name(&self) -> (r: &'static str)
        ensures
            r@ == "throughput-net-iperf3"@,
    {
        "throughput-net-iperf3"
    }

    /// The metrics of a skipped iteration, where the host has no `iperf3`.
    pub fn gate(&self, host_has_iperf3: bool) -> (r: Option<Metrics>)
        ensures
            r is Some <==> !host_has_iperf3,
            r matches Some(m) ==> m@ == none().insert("iperf3_skipped"@, Double::integer(1)),
    {
        if host_has_iperf3 {
            None
        } else {
            Some(skipped("iperf3_skipped"))
        }
    }

    /// What is said about a skipped iteration.
    pub fn skip_message(&self) -> (r: &'static str)
        ensures
            r@ == "SKIP throughput-net-iperf3: host iperf3 binary not found. `apt-get install -y iperf3` (or equivalent) to enable."@,
    {
        "SKIP throughput-net-iperf3: host iperf3 binary not found. `apt-get install -y iperf3` (or equivalent) to enable."
    }

    /// What a client that does not end is refused with.
    pub fn hung_message(&self) -> (r: &'static str)
        ensures
            r@ == "iperf3 client hung > 30s"@,
    {
        "iperf3 client hung > 30s"
    }

    /// Refuses a client that did not succeed, with what it printed on its error output.
    pub fn check_client(&self, code: Option<i32>, stderr: &str) -> (r: Result<(), String>)
        ensures
            match r {
                Ok(()) => code == Some(0i32),
                Err(text) => code != Some(0i32) && text@
                    == "host iperf3 client exited non-zero ("@ + code_text(code) + (
                "); stderr:\n"@ + stderr@),
            },
    {
        let after = joined("); stderr:\n", stderr);
        check_status(code, "host iperf3 client exited non-zero (", after.as_str())
    }

    /// The steps of an iteration.
    pub fn script(&self, host_port: u16) -> (r: Script)
        ensures
            r@ == seq![
                StepView::Create(
                    BoxSpecView {
                        ports: seq![
                            Port { host: Some(host_port), guest: 5201, protocol: Protocol::Tcp },
                        ],
                        ..alpine()
                    },
                ),
                StepView::Start,
            ] + prepared_if(!self.iperf3_installed, install("iperf3"@)) + seq![
                StepView::Spawn(server()),
                StepView::Settle(800),
                StepView::Client(host_client(host_port as nat), Some(30)),
                StepView::Await(3),
                StepView::Stop,
            ],
            one_box(r@),
    {
        let client = host_client_command(host_port);
        let r = Script::new().then_run(forwarding_options(host_port, GUEST_PORT)).then_prepare_if(
            !self.iperf3_installed,
            install_command("iperf3"),
        ).then_do(Step::Spawn(server_command())).then_do(Step::Settle { ms: 800 }).then_do(
            Step::Client { command: client, limit_secs: Some(TRANSFER_SECS + 25) },
        ).then_do(Step::Await { secs: 3 }).then_do(Step::Stop);
        assert(creates_at(r@, 0));
        r
    }

    /// Refuses a box in which `iperf3` could not be installed, and otherwise notes that it is.
    pub fn installed(&mut self, exit_code: i32) -> (r: Result<(), String>)
        ensures
            final(self).home == old(self).home,
            match r {
                Ok(()) => exit_code == 0 && final(self).iperf3_installed,
                Err(text) => {
                    &&& exit_code != 0
                    &&& final(self).iperf3_installed == old(self).iperf3_installed
                    &&& text@ == "apk add iperf3 failed (exit "@ + integer_text(exit_code as int)
                        + ")"@
                },
            },
    {
        match check_exit(exit_code, "apk add iperf3 failed (exit ", ")") {
            Ok(()) => {
                self.iperf3_installed = true;
                Ok(())
            },
            Err(text) => Err(text),
        }
    }

    /// The metrics in what the client printed.
    pub fn metrics(&self, printed: &str) -> (r: Result<Metrics, Iperf3Error>)
        ensures
            match document(printed@) {
                None => r is Err && r->Err_0 == Iperf3Error::NotJson,
                Some(root) => match r {
                    Ok(m) => {
                        &&& tcp_report(root) matches Ok(t)
                        &&& m@ == ingress_metrics(t)
                    },
                    Err(e) => tcp_report(root) == Err::<TcpReport, Iperf3Error>(e),
                },
            },
    {
        parse_iperf3_json(printed)
    }
}

} // verus!
