//! The course of an iteration that works on one box: what is done to it, in which order.
//!
//! A script is carried out from its first step to its last. The first step that fails ends the
//! iteration; the box is then removed by force.

use crate::bench::scenarios::common::{BoxSpec, BoxSpecView, Command, CommandView};
use vstd::prelude::*;

verus! {

/// One step of an iteration.
#[derive(Debug)]
pub enum Step {
    /// Run a program on the host to its end. It must succeed.
    Host(Command),
    /// Create the box.
    Create(BoxSpec),
    /// Start the box.
    Start,
    /// Read what the box knows about its creation and its resources.
    Inspect,
    /// Run a command in the box to its end. It must exit with zero.
    Prepare(Command),
    /// Run a command in the box to its end, keeping what it prints and how long it took. It must
    /// exit with zero. With limits, its output must end within that many seconds, and the command
    /// itself that many seconds later.
    Measure { command: Command, output_secs: Option<u64>, end_secs: Option<u64> },
    /// Run a command in the box so many times, one after another, timing each. Where `partial`,
    /// one that cannot be run ends the repetition and not the iteration.
    Repeat { times: usize, command: Command, partial: bool },
    /// Run a command in the box so many times at once, timing each and all of them.
    Together { times: usize, command: Command },
    /// Start a command in the box and go on.
    Spawn(Command),
    /// Wait.
    Settle { ms: u64 },
    /// Run a program on the host, keeping what it prints. It must succeed, and with a limit it
    /// must end within that many seconds.
    Client { command: Command, limit_secs: Option<u64> },
    /// Sample the resources of the box, then wait for an interval, until the time is over.
    Sample { secs: u64, interval_ms: u64 },
    /// Sample the resources of the box at once, and again after each interval and at the end,
    /// until the time is over. No wait goes beyond the end.
    Soak { secs: u64, interval_ms: u64 },
    /// Connect to a port of the host and send zeroes through it in chunks.
    Send { port: u16, bytes: usize, chunk: usize },
    /// Connect to a port of the host again and again until the time is over, giving each attempt
    /// so many seconds.
    Connect { port: u16, secs: u64, attempt_secs: u64 },
    /// Kill the command that was started last.
    Kill,
    /// Wait for the command that was started last, but no longer than this.
    Await { secs: u64 },
    /// Stop the box.
    Stop,
}

/// A `Step` in plain values.
#[verifier::ext_equal]
pub enum StepView {
    Host(CommandView),
    Create(BoxSpecView),
    Start,
    Inspect,
    Prepare(CommandView),
    Measure(CommandView, Option<u64>, Option<u64>),
    Repeat(usize, CommandView, bool),
    Together(usize, CommandView),
    Spawn(CommandView),
    Settle(u64),
    Client(CommandView, Option<u64>),
    Sample(u64, u64),
    Soak(u64, u64),
    Send(u16, usize, usize),
    Connect(u16, u64, u64),
    Kill,
    Await(u64),
    Stop,
}

impl Step {
    pub open spec fn view(self) -> StepView {
        match self {
            Step::Host(c) => StepView::Host(c@),
            Step::Create(b) => StepView::Create(b@),
            Step::Start => StepView::Start,
            Step::Inspect => StepView::Inspect,
            Step::Prepare(c) => StepView::Prepare(c@),
            Step::Measure { command, output_secs, end_secs } => StepView::Measure(
                command@,
                output_secs,
                end_secs,
            ),
            Step::Repeat { times, command, partial } => StepView::Repeat(times, command@, partial),
            Step::Together { times, command } => StepView::Together(times, command@),
            Step::Spawn(c) => StepView::Spawn(c@),
            Step::Settle { ms } => StepView::Settle(ms),
            Step::Client { command, limit_secs } => StepView::Client(command@, limit_secs),
            Step::Sample { secs, interval_ms } => StepView::Sample(secs, interval_ms),
            Step::Soak { secs, interval_ms } => StepView::Soak(secs, interval_ms),
            Step::Send { port, bytes, chunk } => StepView::Send(port, bytes, chunk),
            Step::Connect { port, secs, attempt_secs } => StepView::Connect(
                port,
                secs,
                attempt_secs,
            ),
            Step::Kill => StepView::Kill,
            Step::Await { secs } => StepView::Await(secs),
            Step::Stop => StepView::Stop,
        }
    }
}

/// The steps of an iteration, in order.
#[derive(Debug)]
pub struct Script {
    pub steps: Vec<Step>,
}

impl Script {
    pub open spec fn view(self) -> Seq<StepView> {
        self.steps@.map_values(|s: Step| s@)
    }

    /// A script that begins with nothing.
    pub fn new() -> (r: Script)
        ensures
            r@ == Seq::<StepView>::empty(),
    {
        let r = Script { steps: Vec::new() };
        assert(r@ =~= Seq::<StepView>::empty());
        r
    }

    /// The script with one more step at its end.
    pub fn then_do(self, step: Step) -> (r: Script)
        ensures
            r@ == self@.push(step@),
    {
        let ghost before = self@;
        let mut steps = self.steps;
        steps.push(step);
        let r = Script { steps };
        assert(r@ =~= before.push(step@));
        r
    }

    /// The script with the creation and the start of its box at its end.
    pub fn then_run(self, spec: BoxSpec) -> (r: Script)
        ensures
            r@ == self@.push(StepView::Create(spec@)).push(StepView::Start),
    {
        self.then_do(Step::Create(spec)).then_do(Step::Start)
    }

    /// The script with a preparation at its end, if that is needed.
    pub fn then_prepare_if(self, needed: bool, command: Command) -> (r: Script)
        ensures
            r@ == self@ + prepared_if(needed, command@),
    {
        if needed {
            let ghost before = self@;
            let r = self.then_do(Step::Prepare(command));
            assert(r@ =~= before + prepared_if(needed, command@));
            r
        } else {
            assert(self@ =~= self@ + prepared_if(needed, command@));
            self
        }
    }
}

/// A preparation, if it is needed.
pub open spec fn prepared_if(needed: bool, command: CommandView) -> Seq<StepView> {
    if needed {
        seq![StepView::Prepare(command)]
    } else {
        Seq::empty()
    }
}

/// Whether a script creates one box, starts it next and stops it at its very end, and otherwise
/// uses the box only while it runs.
pub open spec fn one_box(script: Seq<StepView>) -> bool {
    exists|c: int| #[trigger] creates_at(script, c)
}

pub open spec fn creates_at(script: Seq<StepView>, c: int) -> bool {
    &&& 0 <= c < script.len() - 2
    &&& script[c] is Create
    &&& script[c + 1] is Start
    &&& script.last() is Stop
    &&& forall|i: int|
        0 <= i < c ==> {
            ||| #[trigger] script[i] is Host
            ||| script[i] is Settle
        }
    &&& forall|i: int|
        c + 1 < i < script.len() - 1 ==> {
            &&& !(#[trigger] script[i] is Create)
            &&& !(script[i] is Start)
            &&& !(script[i] is Stop)
        }
}

} // verus!
