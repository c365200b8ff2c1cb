//! How fast a box writes to its disk at random, measured by `fio`.

use crate::bench::scenarios::common::{
    alpine, alpine_options, check_exit, install, install_command, integer_text, Command,
    CommandView, Home, Metrics,
};
use crate::bench::scenarios::fio::{
    job_values, parse_fio_json, write_metrics, FioError, FioValues,
};
use crate::bench::scenarios::script::{
    creates_at, one_box, prepared_if, Script, Step, StepView,
};
use crate::json::document;
use vstd::prelude::*;

verus! {

/// `fio` writing at random and flushing every write.
pub open spec fn random_write() -> CommandView {
    CommandView {
        program: "fio"@,
        args: seq![
            "--name=randwrite"@,
            "--rw=randwrite"@,
            "--bs=4K"@,
            "--size=64M"@,
            "--runtime=10"@,
            "--time_based"@,
            "--ioengine=sync"@,
            "--fsync=1"@,
            "--directory=/tmp"@,
            "--output-format=json"@,
        ],
    }
}

fn random_write_command() -> (r: Command)
    ensures
        r@ == random_write(),
{
    Command::new("fio").arg("--name=randwrite").arg("--rw=randwrite").arg("--bs=4K").arg(
        "--size=64M",
    ).arg("--runtime=10").arg("--time_based").arg("--ioengine=sync").arg("--fsync=1").arg(
        "--directory=/tmp",
    ).arg("--output-format=json")
}

/// `throughput-disk-fio`.
pub struct DiskFio {
    pub home: Home,
    pub fio_installed: bool,
}

impl DiskFio {
    pub fn new() -> (r: DiskFio)
        ensures
            r.home.path is None,
            !r.fio_installed,
    {
        DiskFio { home: Home::new(), fio_installed: false }
    }

    pub fn name(&self) -> (r: &'static str)
        ensures
            r@ == "throughput-disk-fio"@,
    {
        "throughput-disk-fio"
    }

    /// The steps of an iteration.
    pub fn script(&self) -> (r: Script)
        ensures
            r@ == seq![StepView::Create(alpine()), StepView::Start] + prepared_if(
                !self.fio_installed,
                install("fio"@),
            ) + seq![StepView::Measure(random_write(), None, None), StepView::Stop],
            one_box(r@),
    {
        let r = Script::new().then_run(alpine_options()).then_prepare_if(
            !self.fio_installed,
            install_command("fio"),
        ).then_do(
            Step::Measure { command: random_write_command(), output_secs: None, end_secs: None },
        ).then_do(Step::Stop);
        assert(creates_at(r@, 0));
        r
    }

    /// Refuses a box in which `fio` could not be installed, and otherwise notes that it is.
    pub fn installed(&mut self, exit_code: i32) -> (r: Result<(), String>)
        ensures
            final(self).home == old(self).home,
            match r {
                Ok(()) => exit_code == 0 && final(self).fio_installed,
                Err(text) => {
                    &&& exit_code != 0
                    &&& final(self).fio_installed == old(self).fio_installed
                    &&& text@ == "apk add fio failed (exit "@ + integer_text(exit_code as int)
                        + ")"@
                },
            },
    {
        match check_exit(exit_code, "apk add fio failed (exit ", ")") {
            Ok(()) => {
                self.fio_installed = true;
                Ok(())
            },
            Err(text) => Err(text),
        }
    }

    /// Refuses a `fio` that failed, repeating what it printed.
    pub fn check(&self, exit_code: i32, stderr: &str, stdout: &str) -> (r: Result<(), String>)
        ensures
            match r {
                Ok(()) => exit_code == 0,
                Err(text) => exit_code != 0 && text@ == "fio exited non-zero ("@ + integer_text(
                    exit_code as int,
                ) + ("); stderr:\n"@ + stderr@ + "\nstdout:\n"@ + stdout@),
            },
    {
        let mut after: String = "); stderr:\n".to_owned();
        after.append(stderr);
        after.append("\nstdout:\n");
        after.append(stdout);
        check_exit(exit_code, "fio exited non-zero (", after.as_str())
    }

    /// The metrics in what `fio` printed.
    pub fn metrics(&self, printed: &str) -> (r: Result<Metrics, FioError>)
        ensures
            match document(printed@) {
                None => r is Err && r->Err_0 == FioError::NotJson,
                Some(root) => match r {
                    Ok(m) => {
                        &&& job_values(root, "write"@) matches Ok(v)
                        &&& m@ == write_metrics(v)
                    },
                    Err(e) => job_values(root, "write"@) == Err::<FioValues, FioError>(e),
                },
            },
    {
        parse_fio_json(printed)
    }
}

} // verus!
