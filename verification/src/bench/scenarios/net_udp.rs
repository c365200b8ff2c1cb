//! UDP throughput and loss from the host into the box, measured by `iperf3`.
//!
//! `iperf3` needs the same port for TCP, over which it is controlled, and for UDP. The network
//! of the box cannot forward both at once, so the iteration is skipped unless it is forced.

use crate::bench::scenarios::common::{
    alpine, alpine_options, check_exit, check_status, code_text, install, install_command,
    integer_text, none, skipped, BoxSpec, BoxSpecView, Command, CommandView, Home, Metrics, Port,
    Protocol,
};
use crate::bench::scenarios::iperf3::{
    parse_iperf3_udp_json, udp_metrics, udp_report, Iperf3Error, UdpReport,
};
use crate::bench::scenarios::net_iperf3::{server, server_command, GUEST_PORT, TRANSFER_SECS};
use crate::bench::scenarios::script::{
    creates_at, one_box, prepared_if, Script, Step, StepView,
};
use crate::json::document;
use crate::number::double::Double;
use crate::render::{decimal, decimal_text};
use vstd::prelude::*;

verus! {

/// The rate at which the client sends.
pub const TARGET_RATE: &'static str = "1G";

/// The environment variable that forces an iteration.
pub const FORCE_VARIABLE: &'static str = "BOXLITE_BENCH_UDP_FORCE";

/// The client on the host.
pub open spec fn udp_client(port: nat) -> CommandView {
    CommandView {
        program: "iperf3"@,
        args: seq![
            "-c"@,
            "127.0.0.1"@,
            "-p"@,
            decimal(port),
            "-u"@,
            "-b"@,
            TARGET_RATE@,
            "-J"@,
            "-t"@,
            decimal(5),
        ],
    }
}

pub fn udp_client_command(port: u16) -> (r: Command)
    ensures
        r@ == udp_client(port as nat),
{
    Command::new("iperf3").arg("-c").arg("127.0.0.1").arg("-p").arg(
        decimal_text(port as u64).as_str(),
    ).arg("-u").arg("-b").arg(TARGET_RATE).arg("-J").arg("-t").arg(
        decimal_text(TRANSFER_SECS).as_str(),
    )
}

/// Why an iteration is skipped.
#[derive(Clone, Copy, Debug, PartialEq, Eq, Structural)]
pub enum UdpSkip {
    NoIperf3,
    NotForced,
}

/// `throughput-net-udp`.
pub struct NetUdp {
    pub home: Home,
    pub iperf3_installed: bool,
}

impl NetUdp {
    pub fn new() -> (r: NetUdp)
        ensures
            r.home.path is None,
            !r.iperf3_installed,
    {
        NetUdp { home: Home::new(), iperf3_installed: false }
    }

    pub fn name(&self) -> (r: &'static str)
        ensures
            r@ == "throughput-net-udp"@,
    {
        "throughput-net-udp"
    }

    /// Whether to skip the iteration.
    pub fn gate(&self, host_has_iperf3: bool, forced: bool) -> (r: Option<UdpSkip>)
        ensures
            r == if !host_has_iperf3 {
                Some(UdpSkip::NoIperf3)
            } else if !forced {
                Some(UdpSkip::NotForced)
            } else {
                None
            },
    {
        if !host_has_iperf3 {
            Some(UdpSkip::NoIperf3)
        } else if !forced {
            Some(UdpSkip::NotForced)
        } else {
            None
        }
    }

    /// What is said about a skipped iteration.
    pub fn skip_message(&self, skip: UdpSkip) -> (r: &'static str)
        ensures
            r@ == match skip {
                UdpSkip::NoIperf3 => "SKIP throughput-net-udp: host iperf3 binary not found."@,
                UdpSkip::NotForced => "SKIP throughput-net-udp: gvproxy TCP+UDP same-port forward is broken on this boxlite build; iperf3 control channel cannot connect through the dual forward. Set BOXLITE_BENCH_UDP_FORCE=1 to attempt anyway."@,
            },
    {
        match skip {
            UdpSkip::NoIperf3 => "SKIP throughput-net-udp: host iperf3 binary not found.",
            UdpSkip::NotForced => "SKIP throughput-net-udp: gvproxy TCP+UDP same-port forward is broken on this boxlite build; iperf3 control channel cannot connect through the dual forward. Set BOXLITE_BENCH_UDP_FORCE=1 to attempt anyway.",
        }
    }

    /// The metrics of a skipped iteration.
    pub fn skipped_metrics(&self) -> (r: Metrics)
        ensures
            r@ == none().insert("udp_skipped"@, Double::integer(1)),
    {
        skipped("udp_skipped")
    }

    /// The box, with the same port forwarded for both protocols.
    fn options(&self, host_port: u16) -> (r: BoxSpec)
        ensures
            r@ == (BoxSpecView {
                ports: seq![
                    Port { host: Some(host_port), guest: 5201, protocol: Protocol::Tcp },
                    Port { host: Some(host_port), guest: 5201, protocol: Protocol::Udp },
                ],
                ..alpine()
            }),
    {
        let mut spec = alpine_options();
        spec.ports.push(Port { host: Some(host_port), guest: GUEST_PORT, protocol: Protocol::Tcp });
        spec.ports.push(Port { host: Some(host_port), guest: GUEST_PORT, protocol: Protocol::Udp });
        spec
    }

    /// Refuses a client that did not succeed, with what it printed.
    pub fn check_client(&self, code: Option<i32>, stderr: &str, stdout: &str) -> (r: Result<
        (),
        String,
    >)
        ensures
            match r {
                Ok(()) => code == Some(0i32),
                Err(text) => code != Some(0i32) && text@ == "iperf3 -u client exited non-zero ("@
                    + code_text(code) + (")\nstderr:\n"@ + stderr@ + "\nstdout:\n"@ + stdout@),
            },
    {
        let mut after: String = ")\nstderr:\n".to_owned();
        after.append(stderr);
        after.append("\nstdout:\n");
        after.append(stdout);
        check_status(code, "iperf3 -u client exited non-zero (", after.as_str())
    }

    /// The steps of an iteration.
    pub fn script(&self, host_port: u16) -> (r: Script)
        ensures
            r@ == seq![
                StepView::Create(
                    BoxSpecView {
                        ports: seq![
                            Port { host: Some(host_port), guest: 5201, protocol: Protocol::Tcp },
                            Port { host: Some(host_port), guest: 5201, protocol: Protocol::Udp },
                        ],
                        ..alpine()
                    },
                ),
                StepView::Start,
            ] + prepared_if(!self.iperf3_installed, install("iperf3"@)) + seq![
                StepView::Spawn(server()),
                StepView::Settle(2500),
                StepView::Client(udp_client(host_port as nat), None),
                StepView::Await(3),
                StepView::Stop,
            ],
            one_box(r@),
    {
        let client = udp_client_command(host_port);
        let r = Script::new().then_run(self.options(host_port)).then_prepare_if(
            !self.iperf3_installed,
            install_command("iperf3"),
        ).then_do(Step::Spawn(server_command())).then_do(Step::Settle { ms: 2500 }).then_do(
            Step::Client { command: client, limit_secs: None },
        ).then_do(Step::Await { secs: 3 }).then_do(Step::Stop);
        assert(creates_at(r@, 0));
        r
    }

    /// Refuses a box in which `iperf3` could not be installed, and otherwise notes that it is.
    pub fn installed(&mut self, exit_code: i32) -> (r: Result<(), String>)
        ensures
            final(self).home == old(self).home,
            match r {
                Ok(()) => exit_code == 0 && final(self).iperf3_installed,
                Err(text) => {
                    &&& exit_code != 0
                    &&& final(self).iperf3_installed == old(self).iperf3_installed
                    &&& text@ == "apk add iperf3 failed (exit "@ + integer_text(exit_code as int)
                        + ")"@
                },
            },
    {
        match check_exit(exit_code, "apk add iperf3 failed (exit ", ")") {
            Ok(()) => {
                self.iperf3_installed = true;
                Ok(())
            },
            Err(text) => Err(text),
        }
    }

    /// The metrics in what the client printed.
    pub fn metrics(&self, printed: &str) -> (r: Result<Metrics, Iperf3Error>)
        ensures
            match document(printed@) {
                None => r is Err && r->Err_0 == Iperf3Error::NotJson,
                Some(root) => match r {
                    Ok(m) => {
                        &&& udp_report(root) matches Ok(t)
                        &&& m@ == udp_metrics(t)
                    },
                    Err(e) => udp_report(root) == Err::<UdpReport, Iperf3Error>(e),
                },
            },
    {
        parse_iperf3_udp_json(printed)
    }
}

} // verus!
