//! The course of an iteration that works on several boxes, on images or on the runtime itself.
//!
//! A plan is carried out from its first act to its last; each act is timed. The first act that
//! fails ends the iteration.

use crate::bench::scenarios::common::{BoxSpec, BoxSpecView, Command, CommandView};
use vstd::prelude::*;

verus! {

/// One act of an iteration.
#[derive(Debug)]
pub enum Act {
    /// Create a box, and work on it from now on.
    Create(BoxSpec),
    /// Should the iteration end early from here on, remove the box by force.
    Guard,
    Start,
    Stop,
    /// Run a command in the box to its end. It must exit with zero.
    Prepare(Command),
    /// Note that what the iterations share is complete, so that later ones find it.
    Keep,
    /// Work on the box that was kept. It must still be there.
    Fetch,
    /// Remove the box by force. It does not matter whether that succeeds.
    Remove,
    /// Create boxes one after another and keep each of them, started or not, guarded or not.
    Populate { count: usize, spec: BoxSpec, start: bool, guard: bool },
    /// Create and start boxes all at once, timing each, and stop each when it runs. A box is
    /// guarded until then.
    Burst { count: usize, spec: BoxSpec },
    /// Create, start and stop boxes one after another, timing each. A box is guarded until it
    /// is stopped.
    Churn { times: usize, spec: BoxSpec },
    /// Stop the box, find it again and start it, over and over, timing each round.
    Restart { times: usize },
    /// Clone the box, so many times in one call.
    Clone { count: usize },
    /// Remove the clones by force. It does not matter whether that succeeds.
    RemoveClones,
    /// Take snapshots of the box one after another, each under a name of its own, timing each.
    Snapshots { count: usize },
    /// Go back to the snapshot that was taken last.
    Restore,
    /// Write the box to an archive.
    Export,
    /// Make a box of the archive, and work on it from now on.
    Import,
    /// Copy the file of the host to this path in the box.
    CopyIn { to: &'static str },
    /// Copy the file at this path in the box to the host.
    CopyOut { from: &'static str },
    /// Ask for the box of this name over and over, timing each. It is created where there is
    /// none.
    LookUp { times: usize, name: &'static str, spec: BoxSpec },
    /// List all boxes.
    List,
    /// Look up each box that was kept, timing each.
    Inspect,
    /// Read the memory and the disk that each box of the population uses.
    Measure,
    /// Ask the runtime for its metrics over and over, timing each answer.
    Poll { times: usize },
    /// Run a command in the box over and over, timing each.
    Run { times: usize, command: Command },
    /// Pull an image.
    Pull { image: &'static str },
    /// Shut the runtime down.
    Shutdown,
    /// Stop every box that runs. It does not matter whether that succeeds.
    Release,
    /// Read how much disk the box occupies.
    ReadDisk,
    /// Count the files that the process has open.
    CountFiles,
    /// Wait.
    Settle { ms: u64 },
}

/// An `Act` in plain values.
#[verifier::ext_equal]
pub enum ActView {
    Create(BoxSpecView),
    Guard,
    Start,
    Stop,
    Prepare(CommandView),
    Keep,
    Fetch,
    Remove,
    Populate(usize, BoxSpecView, bool, bool),
    Burst(usize, BoxSpecView),
    Churn(usize, BoxSpecView),
    Restart(usize),
    Clone(usize),
    RemoveClones,
    Snapshots(usize),
    Restore,
    Export,
    Import,
    CopyIn(Seq<char>),
    CopyOut(Seq<char>),
    LookUp(usize, Seq<char>, BoxSpecView),
    List,
    Inspect,
    Measure,
    Poll(usize),
    Run(usize, CommandView),
    Pull(Seq<char>),
    Shutdown,
    Release,
    ReadDisk,
    CountFiles,
    Settle(u64),
}

impl Act {
    pub open spec fn view(self) -> ActView {
        match self {
            Act::Create(spec) => ActView::Create(spec@),
            Act::Guard => ActView::Guard,
            Act::Start => ActView::Start,
            Act::Stop => ActView::Stop,
            Act::Prepare(command) => ActView::Prepare(command@),
            Act::Keep => ActView::Keep,
            Act::Fetch => ActView::Fetch,
            Act::Remove => ActView::Remove,
            Act::Populate { count, spec, start, guard } => ActView::Populate(
                count,
                spec@,
                start,
                guard,
            ),
            Act::Burst { count, spec } => ActView::Burst(count, spec@),
            Act::Churn { times, spec } => ActView::Churn(times, spec@),
            Act::Restart { times } => ActView::Restart(times),
            Act::Clone { count } => ActView::Clone(count),
            Act::RemoveClones => ActView::RemoveClones,
            Act::Snapshots { count } => ActView::Snapshots(count),
            Act::Restore => ActView::Restore,
            Act::Export => ActView::Export,
            Act::Import => ActView::Import,
            Act::CopyIn { to } => ActView::CopyIn(to@),
            Act::CopyOut { from } => ActView::CopyOut(from@),
            Act::LookUp { times, name, spec } => ActView::LookUp(times, name@, spec@),
            Act::List => ActView::List,
            Act::Inspect => ActView::Inspect,
            Act::Measure => ActView::Measure,
            Act::Poll { times } => ActView::Poll(times),
            Act::Run { times, command } => ActView::Run(times, command@),
            Act::Pull { image } => ActView::Pull(image@),
            Act::Shutdown => ActView::Shutdown,
            Act::Release => ActView::Release,
            Act::ReadDisk => ActView::ReadDisk,
            Act::CountFiles => ActView::CountFiles,
            Act::Settle { ms } => ActView::Settle(ms),
        }
    }
}

/// The acts of an iteration, in order.
#[derive(Debug)]
pub struct Plan {
    pub acts: Vec<Act>,
}

/// The acts that make and fill the box that all iterations share, if that is needed. The box is
/// stopped when it is kept.
pub open spec fn staged_if(needed: bool, spec: BoxSpecView, fill: CommandView) -> Seq<ActView> {
    if needed {
        seq![
            ActView::Create(spec),
            ActView::Start,
            ActView::Prepare(fill),
            ActView::Stop,
            ActView::Keep,
        ]
    } else {
        Seq::empty()
    }
}

/// The acts that start and stop a first box, if that is needed, so that the image is there.
pub open spec fn warmed_if(needed: bool, spec: BoxSpecView) -> Seq<ActView> {
    if needed {
        seq![ActView::Create(spec), ActView::Start, ActView::Stop, ActView::Keep]
    } else {
        Seq::empty()
    }
}

/// The acts that fill the store with boxes, if some are missing.
pub open spec fn populated_if(missing: int, spec: BoxSpecView, start: bool) -> Seq<ActView> {
    if missing > 0 {
        seq![ActView::Populate(missing as usize, spec, start, false)]
    } else {
        Seq::empty()
    }
}

/// Whether a plan makes no box that stays: neither one that is kept nor a population.
pub open spec fn stages_nothing(plan: Seq<ActView>) -> bool {
    forall|i: int|
        0 <= i < plan.len() ==> !(#[trigger] plan[i] is Keep) && !(plan[i] is Populate)
}

impl Plan {
    pub open spec fn view(self) -> Seq<ActView> {
        self.acts@.map_values(|a: Act| a@)
    }

    /// A plan that begins with nothing.
    pub fn new() -> (r: Plan)
        ensures
            r@ == Seq::<ActView>::empty(),
    {
        let r = Plan { acts: Vec::new() };
        assert(r@ =~= Seq::<ActView>::empty());
        r
    }

    /// The plan with one more act at its end.
    pub fn then_do(self, act: Act) -> (r: Plan)
        ensures
            r@ == self@.push(act@),
    {
        let ghost before = self@;
        let mut acts = self.acts;
        acts.push(act);
        let r = Plan { acts };
        assert(r@ =~= before.push(act@));
        r
    }

    /// The plan with the making of the shared box at its end, if that is needed.
    pub fn then_stage_if(self, needed: bool, spec: BoxSpec, fill: Command) -> (r: Plan)
        ensures
            r@ == self@ + staged_if(needed, spec@, fill@),
    {
        let ghost before = self@;
        let r = if needed {
            self.then_do(Act::Create(spec)).then_do(Act::Start).then_do(Act::Prepare(fill)).then_do(
                Act::Stop,
            ).then_do(Act::Keep)
        } else {
            self
        };
        assert(r@ =~= before + staged_if(needed, spec@, fill@));
        r
    }

    /// The plan with a first box at its end, if that is needed.
    pub fn then_warm_if(self, needed: bool, spec: BoxSpec) -> (r: Plan)
        ensures
            r@ == self@ + warmed_if(needed, spec@),
    {
        let ghost before = self@;
        let r = if needed {
            self.then_do(Act::Create(spec)).then_do(Act::Start).then_do(Act::Stop).then_do(
                Act::Keep,
            )
        } else {
            self
        };
        assert(r@ =~= before + warmed_if(needed, spec@));
        r
    }

    /// The plan with the filling of the store at its end, if boxes are missing.
    pub fn then_populate_if(self, missing: usize, spec: BoxSpec, start: bool) -> (r: Plan)
        ensures
            r@ == self@ + populated_if(missing as int, spec@, start),
    {
        let ghost before = self@;
        let r = if missing > 0 {
            self.then_do(Act::Populate { count: missing, spec, start, guard: false })
        } else {
            self
        };
        assert(r@ =~= before + populated_if(missing as int, spec@, start));
        r
    }
}

} // verus!
