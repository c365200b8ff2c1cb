//! Copying a file of 64 MiB between the host and a box.

use crate::bench::clock::Span;
use crate::bench::scenarios::common::{
    add_some, alpine, alpine_options, mib_per_sec, mib_rate, none, with_some, zero_fill,
    zero_fill_command, BoxSpec, Command, Home, Metrics,
};
use crate::bench::scenarios::plan::{Act, ActView, Plan};
use crate::names::NameMap;
use crate::number::double::Double;
use vstd::prelude::*;

verus! {

/// The size of the file.
pub const COPY_BYTES: u64 = 67108864;

/// `throughput-copy-into`.
pub struct CopyInto {
    pub home: Home,
    pub host_stage: Home,
    /// The file that is copied, once it was made.
    pub payload: Home,
}

impl CopyInto {
    pub fn new() -> (r: CopyInto)
        ensures
            r.home.path is None,
            r.host_stage.path is None,
            r.payload.path is None,
    {
        CopyInto { home: Home::new(), host_stage: Home::new(), payload: Home::new() }
    }

    pub fn name(&self) -> (r: &'static str)
        ensures
            r@ == "throughput-copy-into"@,
    {
        "throughput-copy-into"
    }

    /// The box.
    pub fn options(&self) -> (r: BoxSpec)
        ensures
            r@ == alpine(),
    {
        alpine_options()
    }

    /// Where the copy stands in the box.
    pub fn destination(&self) -> (r: &'static str)
        ensures
            r@ == "/tmp/copied-in"@,
    {
        "/tmp/copied-in"
    }

    /// The acts of an iteration.
    pub fn plan(&self) -> (r: Plan)
        ensures
            r@ == seq![
                ActView::Create(alpine()),
                ActView::Start,
                ActView::CopyIn("/tmp/copied-in"@),
                ActView::Release,
            ],
    {
        Plan::new().then_do(Act::Create(self.options())).then_do(Act::Start).then_do(
            Act::CopyIn { to: self.destination() },
        ).then_do(Act::Release)
    }

    /// The metrics of an iteration.
    pub fn metrics(&self, copy: Span) -> (r: Metrics)
        ensures
            r@ == with_some(
                none().insert("copy_into_ms"@, copy.milliseconds()).insert(
                    "copy_into_bytes"@,
                    Double::integer(67108864),
                ),
                "copy_into_mb_per_sec"@,
                mib_rate(67108864, copy.milliseconds()),
            ),
    {
        let ms: Double = copy.as_ms();
        let m = NameMap::new().with("copy_into_ms", ms).with(
            "copy_into_bytes",
            Double::from_u64(COPY_BYTES),
        );
        add_some(m, "copy_into_mb_per_sec", mib_per_sec(COPY_BYTES, ms))
    }
}

/// `throughput-copy-out`.
pub struct CopyOut {
    pub home: Home,
    pub host_dest: Home,
}

impl CopyOut {
    pub fn new() -> (r: CopyOut)
        ensures
            r.home.path is None,
            r.host_dest.path is None,
    {
        CopyOut { home: Home::new(), host_dest: Home::new() }
    }

    pub fn name(&self) -> (r: &'static str)
        ensures
            r@ == "throughput-copy-out"@,
    {
        "throughput-copy-out"
    }

    /// The box.
    pub fn options(&self) -> (r: BoxSpec)
        ensures
            r@ == alpine(),
    {
        alpine_options()
    }

    /// The command that makes the file that is copied.
    pub fn prepare(&self) -> (r: Command)
        ensures
            r@ == zero_fill("/root/payload-out"@, 64),
    {
        zero_fill_command("/root/payload-out", 64)
    }

    /// The acts of an iteration.
    pub fn plan(&self) -> (r: Plan)
        ensures
            r@ == seq![
                ActView::Create(alpine()),
                ActView::Start,
                ActView::Prepare(zero_fill("/root/payload-out"@, 64)),
                ActView::CopyOut("/root/payload-out"@),
                ActView::Release,
            ],
    {
        Plan::new().then_do(Act::Create(self.options())).then_do(Act::Start).then_do(
            Act::Prepare(self.prepare()),
        ).then_do(Act::CopyOut { from: "/root/payload-out" }).then_do(Act::Release)
    }

    /// The metrics of an iteration, given the size of the copy.
    pub fn metrics(&self, copy: Span, bytes: u64) -> (r: Metrics)
        ensures
            r@ == with_some(
                none().insert("copy_out_ms"@, copy.milliseconds()).insert(
                    "copy_out_bytes"@,
                    Double::integer(bytes as int),
                ),
                "copy_out_mb_per_sec"@,
                mib_rate(bytes as int, copy.milliseconds()),
            ),
    {
        let ms: Double = copy.as_ms();
        let m = NameMap::new().with("copy_out_ms", ms).with(
            "copy_out_bytes",
            Double::from_u64(bytes),
        );
        add_some(m, "copy_out_mb_per_sec", mib_per_sec(bytes, ms))
    }
}

} // verus!
