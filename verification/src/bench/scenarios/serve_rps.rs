//! How many requests a server answers in a second.
//!
//! A server is started as a child process and asked until it answers. Then several workers
//! send requests, one after another each, until the time is over.

use crate::bench::clock::Span;
use crate::bench::scenarios::common::{
    add_some, event_rate, none, per_sec, with_some, Command, CommandView, Metrics,
};
use crate::names::NameMap;
use crate::number::double::Double;
use crate::render::{decimal, decimal_text};
use vstd::prelude::*;

verus! {

/// How long the workers send requests, in seconds.
pub const WINDOW_SECS: u64 = 5;

/// How many workers there are.
pub const CONCURRENCY: usize = 16;

/// How long the server may take until it answers, in seconds.
pub const READY_SECS: u64 = 10;

/// How long a request may take, in seconds.
pub const REQUEST_SECS: u64 = 5;

/// How long to wait before asking again, in milliseconds.
pub const RETRY_MS: u64 = 100;

/// What to do while the server may not be ready yet.
#[derive(Clone, Copy, Debug, PartialEq, Eq, Structural)]
pub enum Readiness {
    /// Send a request.
    Ask,
    /// The server is ready.
    Ready,
    /// The server took too long.
    GiveUp,
}

/// What to do, given whether the last request was answered with success, if there was one, and
/// whether the time is over.
pub fn readiness(answered: Option<bool>, late: bool) -> (r: Readiness)
    ensures
        r == if answered == Some(true) {
            Readiness::Ready
        } else if late {
            Readiness::GiveUp
        } else {
            Readiness::Ask
        },
{
    match answered {
        Some(true) => Readiness::Ready,
        _ => if late {
            Readiness::GiveUp
        } else {
            Readiness::Ask
        },
    }
}

/// The command that runs the server of `program` on a port, with a home of its own.
pub fn serve_command(program: &str, home: &str, port: u16) -> (r: Command)
    ensures
        r@ == (CommandView {
            program: program@,
            args: seq![
                "--home"@,
                home@,
                "serve"@,
                "--host"@,
                "127.0.0.1"@,
                "--port"@,
                decimal(port as nat),
            ],
        }),
{
    Command::new(program).arg("--home").arg(home).arg("serve").arg("--host").arg("127.0.0.1").arg(
        "--port",
    ).arg(decimal_text(port as u64).as_str())
}

/// `throughput-serve-rps`.
pub struct ServeRps;

impl ServeRps {
    pub fn new() -> (r: ServeRps)
        ensures
            r == ServeRps,
    {
        ServeRps
    }

    pub fn name(&self) -> (r: &'static str)
        ensures
            r@ == "throughput-serve-rps"@,
    {
        "throughput-serve-rps"
    }

    /// What is requested.
    pub fn url(&self, port: u16) -> (r: String)
        ensures
            r@ == "http://127.0.0.1:"@ + decimal(port as nat) + "/v1/config"@,
    {
        let mut r: String = "http://127.0.0.1:".to_owned();
        r.append(decimal_text(port as u64).as_str());
        r.append("/v1/config");
        r
    }

    /// What an iteration fails with whose server took too long.
    pub fn late_message(&self) -> (r: &'static str)
        ensures
            r@ == "boxlite serve never answered 200 on /v1/config within 10s"@,
    {
        "boxlite serve never answered 200 on /v1/config within 10s"
    }

    /// The metrics of an iteration: so many requests succeeded and so many failed.
    pub fn metrics(&self, succeeded: u64, failed: u64, elapsed: Span) -> (r: Metrics)
        ensures
            r@ == with_some(
                none(),
                "serve_rps"@,
                event_rate(succeeded as int, elapsed.seconds()),
            ).insert("serve_success_count"@, Double::integer(succeeded as int)).insert(
                "serve_error_count"@,
                Double::integer(failed as int),
            ).insert("serve_concurrency"@, Double::integer(16)),
    {
        let m = add_some(NameMap::new(), "serve_rps", per_sec(succeeded, elapsed.as_secs()));
        m.with("serve_success_count", Double::from_u64(succeeded)).with(
            "serve_error_count",
            Double::from_u64(failed),
        ).with("serve_concurrency", Double::from_u64(16))
    }
}

} // verus!
