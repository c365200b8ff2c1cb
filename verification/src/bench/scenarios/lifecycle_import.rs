//! Importing a box from an archive.
//!
//! The archive is made once, from a box that holds 64 MiB of data.

use crate::bench::clock::Span;
use crate::bench::scenarios::common::{
    add_some, alpine, mib_per_sec, mib_rate, none, source_options, with_some, zero_fill,
    zero_fill_command, BoxSpec, BoxSpecView, Command, Home, Metrics,
};
use crate::bench::scenarios::plan::{Act, ActView, Plan};
use crate::names::NameMap;
use crate::number::double::Double;
use vstd::prelude::*;

verus! {

/// The file name of the archive.
pub const ARCHIVE_NAME: &'static str = "import-source.boxlite";

/// `throughput-import`.
pub struct ThroughputImport {
    pub home: Home,
    pub export_scratch: Home,
    /// The archive, once it was made.
    pub archive_path: Option<String>,
    pub archive_bytes: u64,
}

impl ThroughputImport {
    pub fn new() -> (r: ThroughputImport)
        ensures
            r.home.path is None,
            r.export_scratch.path is None,
            r.archive_path is None,
            r.archive_bytes == 0,
    {
        ThroughputImport {
            home: Home::new(),
            export_scratch: Home::new(),
            archive_path: None,
            archive_bytes: 0,
        }
    }

    pub fn name(&self) -> (r: &'static str)
        ensures
            r@ == "throughput-import"@,
    {
        "throughput-import"
    }

    /// The box that is archived.
    pub fn options(&self) -> (r: BoxSpec)
        ensures
            r@ == (BoxSpecView { auto_remove: false, ..alpine() }),
    {
        source_options()
    }

    /// The command that fills the box that is archived.
    pub fn prepare_source(&self) -> (r: Command)
        ensures
            r@ == zero_fill("/tmp/bench-import-src"@, 64),
    {
        zero_fill_command("/tmp/bench-import-src", 64)
    }

    /// Whether the archive is still to be made.
    pub fn needs_archive(&self) -> (r: bool)
        ensures
            r == (self.archive_path is None),
    {
        self.archive_path.is_none()
    }

    /// Keeps the archive that was made. One that is there already stays.
    pub fn archived(&mut self, path: String, bytes: u64)
        ensures
            final(self).home == old(self).home,
            final(self).export_scratch == old(self).export_scratch,
            old(self).archive_path is None ==> {
                &&& final(self).archive_path == Some(path)
                &&& final(self).archive_bytes == bytes
            },
            old(self).archive_path is Some ==> {
                &&& final(self).archive_path == old(self).archive_path
                &&& final(self).archive_bytes == old(self).archive_bytes
            },
    {
        if self.archive_path.is_none() {
            self.archive_path = Some(path);
            self.archive_bytes = bytes;
        }
    }

    /// The acts of an iteration. The archive is made once, from a box that is then removed.
    pub fn plan(&self) -> (r: Plan)
        ensures
            r@ == (if self.archive_path is None {
                seq![
                    ActView::Create(BoxSpecView { auto_remove: false, ..alpine() }),
                    ActView::Start,
                    ActView::Prepare(zero_fill("/tmp/bench-import-src"@, 64)),
                    ActView::Stop,
                    ActView::Export,
                    ActView::Remove,
                ]
            } else {
                Seq::empty()
            }) + seq![ActView::Import, ActView::Remove],
    {
        let p = if self.needs_archive() {
            Plan::new().then_do(Act::Create(self.options())).then_do(Act::Start).then_do(
                Act::Prepare(self.prepare_source()),
            ).then_do(Act::Stop).then_do(Act::Export).then_do(Act::Remove)
        } else {
            Plan::new()
        };
        p.then_do(Act::Import).then_do(Act::Remove)
    }

    /// The metrics of an iteration.
    pub fn metrics(&self, import: Span) -> (r: Metrics)
        ensures
            r@ == with_some(
                none().insert("import_ms"@, import.milliseconds()).insert(
                    "import_bytes"@,
                    Double::integer(self.archive_bytes as int),
                ),
                "import_mb_per_sec"@,
                mib_rate(self.archive_bytes as int, import.milliseconds()),
            ),
    {
        let ms: Double = import.as_ms();
        let m = NameMap::new().with("import_ms", ms).with(
            "import_bytes",
            Double::from_u64(self.archive_bytes),
        );
        add_some(m, "import_mb_per_sec", mib_per_sec(self.archive_bytes, ms))
    }
}

} // verus!
