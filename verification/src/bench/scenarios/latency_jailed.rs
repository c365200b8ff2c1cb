//! Cold start in the strictest isolation.
//!
//! The difference to `latency-cold-start` is what isolation costs. Where the platform cannot
//! isolate fully, or unprivileged user namespaces are not available, the iteration is skipped
//! and its sample says so.

use crate::bench::scenarios::common::{
    alpine, alpine_options, none, populate_stage_metrics, skipped, stage_metrics, BoxSpecView,
    Command, CommandView, Metrics, StageTimes,
};
use crate::bench::scenarios::latency::{drive_one, one_start};
use crate::bench::scenarios::script::Script;
use crate::number::double::Double;
use vstd::prelude::*;

verus! {

/// `latency-cold-start-jailed`.
pub struct LatencyColdStartJailed;

/// Why an iteration is skipped.
#[derive(Clone, Copy, Debug, PartialEq, Eq, Structural)]
pub enum JailedSkip {
    /// The platform cannot isolate fully.
    NoFullIsolation,
    /// `bwrap` cannot make a user namespace.
    NoUserNamespaces,
}

impl LatencyColdStartJailed {
    pub fn new() -> (r: LatencyColdStartJailed)
        ensures
            r == LatencyColdStartJailed,
    {
        LatencyColdStartJailed
    }

    pub fn name(&self) -> (r: &'static str)
        ensures
            r@ == "latency-cold-start-jailed"@,
    {
        "latency-cold-start-jailed"
    }

    /// The command whose success shows that user namespaces are available.
    pub fn preflight(&self) -> (r: Command)
        ensures
            r@ == (CommandView {
                program: "bwrap"@,
                args: seq!["--unshare-user"@, "--bind"@, "/"@, "/"@, "true"@],
            }),
    {
        Command::new("bwrap").arg("--unshare-user").arg("--bind").arg("/").arg("/").arg("true")
    }

    /// Whether to skip the iteration. `preflight_passed` counts only where full isolation is
    /// available.
    pub fn gate(&self, full_isolation: bool, preflight_passed: bool) -> (r: Option<JailedSkip>)
        ensures
            r == if !full_isolation {
                Some(JailedSkip::NoFullIsolation)
            } else if !preflight_passed {
                Some(JailedSkip::NoUserNamespaces)
            } else {
                None
            },
    {
        if !full_isolation {
            Some(JailedSkip::NoFullIsolation)
        } else if !preflight_passed {
            Some(JailedSkip::NoUserNamespaces)
        } else {
            None
        }
    }

    /// What is said about a skipped iteration.
    pub fn skip_message(&self, skip: JailedSkip) -> (r: &'static str)
        ensures
            r@ == match skip {
                JailedSkip::NoFullIsolation => "SKIP latency-cold-start-jailed: SecurityOptions::is_full_isolation_available()=false (non-Linux)"@,
                JailedSkip::NoUserNamespaces => "SKIP latency-cold-start-jailed: `bwrap --unshare-user` preflight failed (likely AppArmor restricting unprivileged userns; see kernel.apparmor_restrict_unprivileged_userns)."@,
            },
    {
        match skip {
            JailedSkip::NoFullIsolation => "SKIP latency-cold-start-jailed: SecurityOptions::is_full_isolation_available()=false (non-Linux)",
            JailedSkip::NoUserNamespaces => "SKIP latency-cold-start-jailed: `bwrap --unshare-user` preflight failed (likely AppArmor restricting unprivileged userns; see kernel.apparmor_restrict_unprivileged_userns).",
        }
    }

    /// The metrics of a skipped iteration.
    pub fn skipped_metrics(&self) -> (r: Metrics)
        ensures
            r@ == none().insert("cold_jailed_skipped"@, Double::integer(1)),
    {
        skipped("cold_jailed_skipped")
    }

    /// The steps of an iteration.
    pub fn script(&self) -> (r: Script)
        ensures
            r@ == one_start(BoxSpecView { max_isolation: true, ..alpine() }),
    {
        let mut spec = alpine_options();
        spec.max_isolation = true;
        drive_one(spec)
    }

    /// The metrics of an iteration.
    pub fn metrics(&self, stages: StageTimes) -> (r: Metrics)
        ensures
            r@ == stage_metrics(stages),
    {
        populate_stage_metrics(stages)
    }
}

} // verus!
