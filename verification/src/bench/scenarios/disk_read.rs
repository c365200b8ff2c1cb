//! How fast a box reads from its disk, measured by `dd` and by `fio`.
//!
//! Both read a file that was written in full before: reading a sparse file would not touch the
//! disk at all.

use crate::bench::clock::Span;
use crate::bench::scenarios::common::{
    alpine, alpine_options, check_exit, install, install_command, integer_text, none, zero_fill,
    zero_fill_command, Command, CommandView, Home, Metrics,
};
use crate::bench::scenarios::fio::{
    job_values, parse_fio_read_json, read_metrics, FioError, FioValues,
};
use crate::bench::scenarios::script::{
    creates_at, one_box, prepared_if, Script, Step, StepView,
};
use crate::json::document;
use crate::names::NameMap;
use crate::number::double::Double;
use crate::text::joined;
use vstd::prelude::*;

verus! {

/// The size of the file, in mebibytes.
pub const WORKING_SET_MIB: u32 = 64;

/// The command that writes the file that is read.
pub open spec fn stage() -> CommandView {
    zero_fill("/tmp/bench-read-src"@, 64)
}

fn stage_command() -> (r: Command)
    ensures
        r@ == stage(),
{
    zero_fill_command("/tmp/bench-read-src", WORKING_SET_MIB)
}

/// Refuses a box in which the file could not be written.
pub fn check_staged(exit_code: i32) -> (r: Result<(), String>)
    ensures
        match r {
            Ok(()) => exit_code == 0,
            Err(text) => exit_code != 0 && text@ == "dd stage failed (exit "@ + integer_text(
                exit_code as int,
            ) + ")"@,
        },
{
    check_exit(exit_code, "dd stage failed (exit ", ")")
}

/// `dd` reading the file.
pub open spec fn sequential_read() -> CommandView {
    CommandView {
        program: "dd"@,
        args: seq!["if=/tmp/bench-read-src"@, "of=/dev/null"@, "bs=1M"@],
    }
}

fn sequential_read_command() -> (r: Command)
    ensures
        r@ == sequential_read(),
{
    Command::new("dd").arg("if=/tmp/bench-read-src").arg("of=/dev/null").arg("bs=1M")
}

/// `throughput-disk-read`.
pub struct DiskRead {
    pub home: Home,
}

impl DiskRead {
    pub fn new() -> (r: DiskRead)
        ensures
            r.home.path is None,
    {
        DiskRead { home: Home::new() }
    }

    pub fn name(&self) -> (r: &'static str)
        ensures
            r@ == "throughput-disk-read"@,
    {
        "throughput-disk-read"
    }

    /// The steps of an iteration. The file is written anew in each of them, which also takes it
    /// out of the caches.
    pub fn script(&self) -> (r: Script)
        ensures
            r@ == seq![
                StepView::Create(alpine()),
                StepView::Start,
                StepView::Prepare(stage()),
                StepView::Measure(sequential_read(), None, None),
                StepView::Stop,
            ],
            one_box(r@),
    {
        let r = Script::new().then_run(alpine_options()).then_do(
            Step::Prepare(stage_command()),
        ).then_do(
            Step::Measure {
                command: sequential_read_command(),
                output_secs: None,
                end_secs: None,
            },
        ).then_do(Step::Stop);
        assert(creates_at(r@, 0));
        r
    }

    /// Refuses a `dd` that failed, repeating what it printed.
    pub fn check(&self, exit_code: i32, printed: &str) -> (r: Result<(), String>)
        ensures
            match r {
                Ok(()) => exit_code == 0,
                Err(text) => exit_code != 0 && text@ == "dd read exited non-zero ("@ + integer_text(
                    exit_code as int,
                ) + ("); stderr:\n"@ + printed@),
            },
    {
        check_exit(
            exit_code,
            "dd read exited non-zero (",
            joined("); stderr:\n", printed).as_str(),
        )
    }

    /// The metrics of an iteration, given the rate that `dd` reports and how long it took.
    pub fn metrics(&self, mb_per_sec: Double, wall: Span) -> (r: Metrics)
        ensures
            r@ == none().insert("disk_read_mb_per_sec"@, mb_per_sec).insert(
                "disk_read_bytes"@,
                Double::integer(67108864),
            ).insert("disk_read_wall_ms"@, wall.milliseconds()),
    {
        NameMap::new().with("disk_read_mb_per_sec", mb_per_sec).with(
            "disk_read_bytes",
            Double::from_u64(67108864),
        ).with("disk_read_wall_ms", wall.as_ms())
    }
}

/// `fio` reading the file at random.
pub open spec fn random_read() -> CommandView {
    CommandView {
        program: "fio"@,
        args: seq![
            "--name=randread"@,
            "--rw=randread"@,
            "--bs=4K"@,
            "--size=64M"@,
            "--runtime=10"@,
            "--time_based"@,
            "--ioengine=sync"@,
            "--filename=/tmp/bench-read-src"@,
            "--output-format=json"@,
        ],
    }
}

fn random_read_command() -> (r: Command)
    ensures
        r@ == random_read(),
{
    Command::new("fio").arg("--name=randread").arg("--rw=randread").arg("--bs=4K").arg(
        "--size=64M",
    ).arg("--runtime=10").arg("--time_based").arg("--ioengine=sync").arg(
        "--filename=/tmp/bench-read-src",
    ).arg("--output-format=json")
}

/// `throughput-disk-fio-read`.
pub struct DiskFioRead {
    pub home: Home,
    pub fio_installed: bool,
    pub file_staged: bool,
}

impl DiskFioRead {
    pub fn new() -> (r: DiskFioRead)
        ensures
            r.home.path is None,
            !r.fio_installed,
            !r.file_staged,
    {
        DiskFioRead { home: Home::new(), fio_installed: false, file_staged: false }
    }

    pub fn name(&self) -> (r: &'static str)
        ensures
            r@ == "throughput-disk-fio-read"@,
    {
        "throughput-disk-fio-read"
    }

    /// The steps of an iteration.
    pub fn script(&self) -> (r: Script)
        ensures
            r@ == seq![StepView::Create(alpine()), StepView::Start] + prepared_if(
                !self.fio_installed,
                install("fio"@),
            ) + prepared_if(!self.file_staged, stage()) + seq![
                StepView::Measure(random_read(), None, None),
                StepView::Stop,
            ],
            one_box(r@),
    {
        let r = Script::new().then_run(alpine_options()).then_prepare_if(
            !self.fio_installed,
            install_command("fio"),
        ).then_prepare_if(!self.file_staged, stage_command()).then_do(
            Step::Measure { command: random_read_command(), output_secs: None, end_secs: None },
        ).then_do(Step::Stop);
        assert(creates_at(r@, 0));
        r
    }

    /// Refuses a box in which `fio` could not be installed, and otherwise notes that it is.
    pub fn installed(&mut self, exit_code: i32) -> (r: Result<(), String>)
        ensures
            final(self).home == old(self).home,
            final(self).file_staged == old(self).file_staged,
            match r {
                Ok(()) => exit_code == 0 && final(self).fio_installed,
                Err(text) => {
                    &&& exit_code != 0
                    &&& final(self).fio_installed == old(self).fio_installed
                    &&& text@ == "apk add fio failed (exit "@ + integer_text(exit_code as int)
                        + ")"@
                },
            },
    {
        match check_exit(exit_code, "apk add fio failed (exit ", ")") {
            Ok(()) => {
                self.fio_installed = true;
                Ok(())
            },
            Err(text) => Err(text),
        }
    }

    /// Refuses a box in which the file could not be written, and otherwise notes that it is.
    pub fn staged(&mut self, exit_code: i32) -> (r: Result<(), String>)
        ensures
            final(self).home == old(self).home,
            final(self).fio_installed == old(self).fio_installed,
            match r {
                Ok(()) => exit_code == 0 && final(self).file_staged,
                Err(text) => {
                    &&& exit_code != 0
                    &&& final(self).file_staged == old(self).file_staged
                    &&& text@ == "dd stage failed (exit "@ + integer_text(exit_code as int) + ")"@
                },
            },
    {
        match check_staged(exit_code) {
            Ok(()) => {
                self.file_staged = true;
                Ok(())
            },
            Err(text) => Err(text),
        }
    }

    /// Refuses a `fio` that failed, repeating what it printed.
    pub fn check(&self, exit_code: i32, printed: &str) -> (r: Result<(), String>)
        ensures
            match r {
                Ok(()) => exit_code == 0,
                Err(text) => exit_code != 0 && text@ == "fio randread exited non-zero ("@
                    + integer_text(exit_code as int) + ("); stdout:\n"@ + printed@),
            },
    {
        check_exit(
            exit_code,
            "fio randread exited non-zero (",
            joined("); stdout:\n", printed).as_str(),
        )
    }

    /// The metrics in what `fio` printed.
    pub fn metrics(&self, printed: &str) -> (r: Result<Metrics, FioError>)
        ensures
            match document(printed@) {
                None => r is Err && r->Err_0 == FioError::NotJson,
                Some(root) => match r {
                    Ok(m) => {
                        &&& job_values(root, "read"@) matches Ok(v)
                        &&& m@ == read_metrics(v)
                    },
                    Err(e) => job_values(root, "read"@) == Err::<FioValues, FioError>(e),
                },
            },
    {
        parse_fio_read_json(printed)
    }
}

} // verus!
