//! TCP throughput from the box to the host, measured by `iperf3`.
//!
//! The server runs on the host and ends by itself after one client. Should a client fail half-way
//! the server lingers; the teardown kills it by the port it listens on.

use crate::bench::scenarios::common::{
    alpine, alpine_options, check_exit, check_status, code_text, install, install_command,
    integer_text, none, skipped, Command, CommandView, Home, Metrics,
};
use crate::bench::scenarios::iperf3::{
    egress_metrics, parse_iperf3_egress_json, tcp_report, Iperf3Error, TcpReport,
};
use crate::bench::scenarios::net_iperf3::TRANSFER_SECS;
use crate::bench::scenarios::script::{
    creates_at, one_box, prepared_if, Script, Step, StepView,
};
use crate::json::document;
use crate::number::double::Double;
use crate::render::{decimal, decimal_text};
use crate::text::joined;
use vstd::prelude::*;

verus! {

/// The address at which the box reaches the host.
pub const HOST_ADDRESS: &'static str = "192.168.127.254";

/// The server on the host: in the background, for one client, on all interfaces.
pub open spec fn host_server(port: nat) -> CommandView {
    CommandView {
        program: "iperf3"@,
        args: seq!["-s"@, "-D"@, "-1"@, "-p"@, decimal(port), "--bind"@, "0.0.0.0"@],
    }
}

pub fn host_server_command(port: u16) -> (r: Command)
    ensures
        r@ == host_server(port as nat),
{
    Command::new("iperf3").arg("-s").arg("-D").arg("-1").arg("-p").arg(
        decimal_text(port as u64).as_str(),
    ).arg("--bind").arg("0.0.0.0")
}

/// The client in the box.
pub open spec fn box_client(port: nat) -> CommandView {
    CommandView {
        program: "iperf3"@,
        args: seq!["-c"@, HOST_ADDRESS@, "-p"@, decimal(port), "-J"@, "-t"@, decimal(5)],
    }
}

pub fn box_client_command(port: u16) -> (r: Command)
    ensures
        r@ == box_client(port as nat),
{
    Command::new("iperf3").arg("-c").arg(HOST_ADDRESS).arg("-p").arg(
        decimal_text(port as u64).as_str(),
    ).arg("-J").arg("-t").arg(decimal_text(TRANSFER_SECS).as_str())
}

/// The command that kills the server on a port.
pub open spec fn kill_server(port: nat) -> CommandView {
    CommandView { program: "pkill"@, args: seq!["-f"@, "iperf3 .*-p "@ + decimal(port)] }
}

fn kill_server_command(port: u16) -> (r: Command)
    ensures
        r@ == kill_server(port as nat),
{
    let mut pattern: String = "iperf3 .*-p ".to_owned();
    pattern.append(decimal_text(port as u64).as_str());
    Command::new("pkill").arg("-f").arg(pattern.as_str())
}

/// `throughput-net-iperf3-egress`.
pub struct NetIperf3Egress {
    pub home: Home,
    pub iperf3_installed: bool,
    /// The ports of the servers that were started.
    pub daemon_ports: Vec<u16>,
}

impl NetIperf3Egress {
    pub fn new() -> (r: NetIperf3Egress)
        ensures
            r.home.path is None,
            !r.iperf3_installed,
            r.daemon_ports@.len() == 0,
    {
        NetIperf3Egress { home: Home::new(), iperf3_installed: false, daemon_ports: Vec::new() }
    }

    pub fn name(&self) -> (r: &'static str)
        ensures
            r@ == "throughput-net-iperf3-egress"@,
    {
        "throughput-net-iperf3-egress"
    }

    /// The metrics of a skipped iteration, where the host has no `iperf3`.
    pub fn gate(&self, host_has_iperf3: bool) -> (r: Option<Metrics>)
        ensures
            r is Some <==> !host_has_iperf3,
            r matches Some(m) ==> m@ == none().insert("iperf3_egress_skipped"@, Double::integer(1)),
    {
        if host_has_iperf3 {
            None
        } else {
            Some(skipped("iperf3_egress_skipped"))
        }
    }

    /// What is said about a skipped iteration.
    pub fn skip_message(&self) -> (r: &'static str)
        ensures
            r@ == "SKIP throughput-net-iperf3-egress: host iperf3 binary not found."@,
    {
        "SKIP throughput-net-iperf3-egress: host iperf3 binary not found."
    }

    /// Refuses a server that could not be started.
    pub fn check_server(&self, code: Option<i32>) -> (r: Result<(), String>)
        ensures
            match r {
                Ok(()) => code == Some(0i32),
                Err(text) => code != Some(0i32) && text@
                    == "host iperf3 -s -D failed to launch (exit "@ + code_text(code) + ")"@,
            },
    {
        check_status(code, "host iperf3 -s -D failed to launch (exit ", ")")
    }

    /// What a client whose output does not end is refused with.
    pub fn drain_message(&self) -> (r: &'static str)
        ensures
            r@ == "in-box iperf3 client stdout drain hung > 30s"@,
    {
        "in-box iperf3 client stdout drain hung > 30s"
    }

    /// What a client that does not end after its output is refused with.
    pub fn wait_message(&self) -> (r: &'static str)
        ensures
            r@ == "in-box iperf3 client wait hung > 10s"@,
    {
        "in-box iperf3 client wait hung > 10s"
    }

    /// Refuses a client that did not succeed, with what it printed.
    pub fn check_client(&self, exit_code: i32, printed: &str) -> (r: Result<(), String>)
        ensures
            match r {
                Ok(()) => exit_code == 0,
                Err(text) => exit_code != 0 && text@ == "in-box iperf3 client exited non-zero ("@
                    + integer_text(exit_code as int) + ("); stdout:\n"@ + printed@),
            },
    {
        let after = joined("); stdout:\n", printed);
        check_exit(exit_code, "in-box iperf3 client exited non-zero (", after.as_str())
    }

    /// The steps of an iteration.
    pub fn script(&self, host_port: u16) -> (r: Script)
        ensures
            r@ == seq![
                StepView::Host(host_server(host_port as nat)),
                StepView::Create(alpine()),
                StepView::Start,
            ] + prepared_if(!self.iperf3_installed, install("iperf3"@)) + seq![
                StepView::Settle(500),
                StepView::Measure(box_client(host_port as nat), Some(30), Some(10)),
                StepView::Stop,
            ],
            one_box(r@),
    {
        let client = box_client_command(host_port);
        let r = Script::new().then_do(Step::Host(host_server_command(host_port))).then_run(
            alpine_options(),
        ).then_prepare_if(!self.iperf3_installed, install_command("iperf3")).then_do(
            Step::Settle { ms: 500 },
        ).then_do(
            Step::Measure {
                command: client,
                output_secs: Some(TRANSFER_SECS + 25),
                end_secs: Some(10),
            },
        ).then_do(Step::Stop);
        assert(creates_at(r@, 1));
        r
    }

    /// Notes that a server was started on a port.
    pub fn server_started(&mut self, port: u16)
        ensures
            final(self).daemon_ports@ == old(self).daemon_ports@.push(port),
            final(self).home == old(self).home,
            final(self).iperf3_installed == old(self).iperf3_installed,
    {
        self.daemon_ports.push(port);
    }

    /// Refuses a box in which `iperf3` could not be installed, and otherwise notes that it is.
    pub fn installed(&mut self, exit_code: i32) -> (r: Result<(), String>)
        ensures
            final(self).home == old(self).home,
            final(self).daemon_ports == old(self).daemon_ports,
            match r {
                Ok(()) => exit_code == 0 && final(self).iperf3_installed,
                Err(text) => {
                    &&& exit_code != 0
                    &&& final(self).iperf3_installed == old(self).iperf3_installed
                    &&& text@ == "apk add iperf3 failed (exit "@ + integer_text(exit_code as int)
                        + ")"@
                },
            },
    {
        match check_exit(exit_code, "apk add iperf3 failed (exit ", ")") {
            Ok(()) => {
                self.iperf3_installed = true;
                Ok(())
            },
            Err(text) => Err(text),
        }
    }

    /// The metrics in what the client printed.
    pub fn metrics(&self, printed: &str) -> (r: Result<Metrics, Iperf3Error>)
        ensures
            match document(printed@) {
                None => r is Err && r->Err_0 == Iperf3Error::NotJson,
                Some(root) => match r {
                    Ok(m) => {
                        &&& tcp_report(root) matches Ok(t)
                        &&& m@ == egress_metrics(t)
                    },
                    Err(e) => tcp_report(root) == Err::<TcpReport, Iperf3Error>(e),
                },
            },
    {
        parse_iperf3_egress_json(printed)
    }

    /// The commands that kill the servers, which are forgotten with that.
    pub fn leftovers(&mut self) -> (r: Vec<Command>)
        ensures
            final(self).daemon_ports@.len() == 0,
            final(self).home == old(self).home,
            final(self).iperf3_installed == old(self).iperf3_installed,
            r@.len() == old(self).daemon_ports@.len(),
            forall|i: int|
                0 <= i < r@.len() ==> (#[trigger] r@[i])@ == kill_server(
                    old(self).daemon_ports@[i] as nat,
                ),
    {
        let mut r: Vec<Command> = Vec::new();
        let mut i: usize = 0;
        while i < self.daemon_ports.len()
            invariant
                i <= self.daemon_ports@.len(),
                r@.len() == i,
                self.daemon_ports == old(self).daemon_ports,
                self.home == old(self).home,
                self.iperf3_installed == old(self).iperf3_installed,
                forall|j: int|
                    0 <= j < r@.len() ==> (#[trigger] r@[j])@ == kill_server(
                        self.daemon_ports@[j] as nat,
                    ),
            decreases self.daemon_ports@.len() - i,
        {
            r.push(kill_server_command(self.daemon_ports[i]));
            i = i + 1;
        }
        self.daemon_ports.clear();
        r
    }
}

} // verus!
