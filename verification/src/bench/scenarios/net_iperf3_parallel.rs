//! TCP throughput from the host into the box over several streams at once.
//!
//! Besides the total rate the sample holds how the rate spreads over the streams, which shows
//! when one of them starves the others.

use crate::bench::scenarios::common::{
    alpine, check_exit, check_status, code_text, forwarding_options, install, install_command,
    integer_text, none, skipped, BoxSpecView, Command, CommandView, Home, Metrics, Port, Protocol,
};
use crate::bench::scenarios::iperf3::{
    parallel_metrics, parallel_streams, parallel_totals, parse_iperf3_parallel_json, Iperf3Error,
    Totals,
};
use crate::bench::scenarios::net_iperf3::{server, server_command, GUEST_PORT, TRANSFER_SECS};
use crate::bench::scenarios::script::{
    creates_at, one_box, prepared_if, Script, Step, StepView,
};
use crate::json::document;
use crate::number::double::Double;
use crate::render::{decimal, decimal_text};
use crate::text::joined;
use vstd::prelude::*;

verus! {

/// How many streams there are.
pub const STREAMS: u32 = 4;

/// The client on the host.
pub open spec fn parallel_client(port: nat) -> CommandView {
    CommandView {
        program: "iperf3"@,
        args: seq![
            "-c"@,
            "127.0.0.1"@,
            "-p"@,
            decimal(port),
            "-P"@,
            decimal(4),
            "-J"@,
            "-t"@,
            decimal(5),
        ],
    }
}

pub fn parallel_client_command(port: u16) -> (r: Command)
    ensures
        r@ == parallel_client(port as nat),
{
    Command::new("iperf3").arg("-c").arg("127.0.0.1").arg("-p").arg(
        decimal_text(port as u64).as_str(),
    ).arg("-P").arg(decimal_text(STREAMS as u64).as_str()).arg("-J").arg("-t").arg(
        decimal_text(TRANSFER_SECS).as_str(),
    )
}

/// `throughput-net-iperf3-parallel`.
pub struct NetIperf3Parallel {
    pub home: Home,
    pub iperf3_installed: bool,
}

impl NetIperf3Parallel {
    pub fn new() -> (r: NetIperf3Parallel)
        ensures
            r.home.path is None,
            !r.iperf3_installed,
    {
        NetIperf3Parallel { home: Home::new(), iperf3_installed: false }
    }

    pub fn name(&self) -> (r: &'static str)
        ensures
            r@ == "throughput-net-iperf3-parallel"@,
    {
        "throughput-net-iperf3-parallel"
    }

    /// The metrics of a skipped iteration, where the host has no `iperf3`.
    pub fn gate(&self, host_has_iperf3: bool) -> (r: Option<Metrics>)
        ensures
            r is Some <==> !host_has_iperf3,
            r matches Some(m) ==> m@ == none().insert(
                "iperf3_parallel_skipped"@,
                Double::integer(1),
            ),
    {
        if host_has_iperf3 {
            None
        } else {
            Some(skipped("iperf3_parallel_skipped"))
        }
    }

    /// What is said about a skipped iteration.
    pub fn skip_message(&self) -> (r: &'static str)
        ensures
            r@ == "SKIP throughput-net-iperf3-parallel: host iperf3 missing."@,
    {
        "SKIP throughput-net-iperf3-parallel: host iperf3 missing."
    }

    /// Refuses a client that did not succeed, with what it printed on its error output.
    pub fn check_client(&self, code: Option<i32>, stderr: &str) -> (r: Result<(), String>)
        ensures
            match r {
                Ok(()) => code == Some(0i32),
                Err(text) => code != Some(0i32) && text@ == "iperf3 -P client exited non-zero ("@
                    + code_text(code) + ("); stderr:\n"@ + stderr@),
            },
    {
        let after = joined("); stderr:\n", stderr);
        check_status(code, "iperf3 -P client exited non-zero (", after.as_str())
    }

    /// The steps of an iteration.
    pub fn script(&self, host_port: u16) -> (r: Script)
        ensures
            r@ == seq![
                StepView::Create(
                    BoxSpecView {
                        ports: seq![
                            Port { host: Some(host_port), guest: 5201, protocol: Protocol::Tcp },
                        ],
                        ..alpine()
                    },
                ),
                StepView::Start,
            ] + prepared_if(!self.iperf3_installed, install("iperf3"@)) + seq![
                StepView::Spawn(server()),
                StepView::Settle(800),
                StepView::Client(parallel_client(host_port as nat), None),
                StepView::Await(3),
                StepView::Stop,
            ],
            one_box(r@),
    {
        let client = parallel_client_command(host_port);
        let r = Script::new().then_run(forwarding_options(host_port, GUEST_PORT)).then_prepare_if(
            !self.iperf3_installed,
            install_command("iperf3"),
        ).then_do(Step::Spawn(server_command())).then_do(Step::Settle { ms: 800 }).then_do(
            Step::Client { command: client, limit_secs: None },
        ).then_do(Step::Await { secs: 3 }).then_do(Step::Stop);
        assert(creates_at(r@, 0));
        r
    }

    /// Refuses a box in which `iperf3` could not be installed, and otherwise notes that it is.
    pub fn installed(&mut self, exit_code: i32) -> (r: Result<(), String>)
        ensures
            final(self).home == old(self).home,
            match r {
                Ok(()) => exit_code == 0 && final(self).iperf3_installed,
                Err(text) => {
                    &&& exit_code != 0
                    &&& final(self).iperf3_installed == old(self).iperf3_installed
                    &&& text@ == "apk add iperf3 failed (exit "@ + integer_text(exit_code as int)
                        + ")"@
                },
            },
    {
        match check_exit(exit_code, "apk add iperf3 failed (exit ", ")") {
            Ok(()) => {
                self.iperf3_installed = true;
                Ok(())
            },
            Err(text) => Err(text),
        }
    }

    /// The metrics in what the client printed.
    pub fn metrics(&self, printed: &str) -> (r: Result<Metrics, Iperf3Error>)
        ensures
            match document(printed@) {
                None => r is Err && r->Err_0 == Iperf3Error::NotJson,
                Some(root) => match r {
                    Ok(m) => {
                        &&& parallel_totals(root) matches Ok(totals)
                        &&& m@ == parallel_metrics(totals, parallel_streams(root))
                    },
                    Err(e) => parallel_totals(root) == Err::<Totals, Iperf3Error>(e),
                },
            },
    {
        parse_iperf3_parallel_json(printed)
    }
}

} // verus!
