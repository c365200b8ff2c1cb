//! Whether a busy box grows over time.
//!
//! As in `stability-soak` a box is kept alive and sampled, but here it reads from its disk all
//! the while. The workload reports how many rounds it completed: without any, the sample would
//! say nothing about a busy box.

use crate::bench::clock::Span;
use crate::bench::scenarios::common::{
    add_some, alpine, alpine_options, check_exit, first_to_last, install, install_command,
    integer_text, known_difference, known_growth, largest, max_number, none, total_growth, whole,
    with_some, Command, CommandView, Home, Metrics,
};
use crate::bench::scenarios::script::{
    creates_at, one_box, prepared_if, Script, Step, StepView,
};
use crate::names::NameMap;
use crate::number::double::Double;
use crate::parts::{all_of, law_trimmed_is_the_core};
use crate::render::law_decimal_reads_back;
use crate::render::{decimal, decimal_text};
use crate::text::{
    chars_of, lines, parse_u64, parsed_u64, split_lines, starts, strip_prefix, trim, trimmed,
    views,
};
use crate::text::{is_digit, Class};
use vstd::prelude::*;

verus! {

/// The shell script of the workload: it reads at random from a file until the time is over, and
/// prints how many rounds it completed.
pub open spec fn workload_text(secs: nat) -> Seq<char> {
    "set -e; dd if=/dev/zero of=/tmp/soak-data bs=1M count=32 2>/dev/null; count=0; end=$(($(date +%s) + "@
        + decimal(secs)
        + ")); while [ \"$(date +%s)\" -lt \"$end\" ]; do fio --name=randread --rw=randread --bs=4K --size=32M --runtime=1 --time_based --ioengine=sync --filename=/tmp/soak-data --output-format=json >/dev/null 2>&1 || break; count=$((count + 1)); done; echo \"workload_cycles=$count\""@
}

pub open spec fn workload(secs: nat) -> CommandView {
    CommandView { program: "sh"@, args: seq!["-c"@, workload_text(secs)] }
}

pub fn workload_command(secs: u64) -> (r: Command)
    ensures
        r@ == workload(secs as nat),
{
    let mut script: String =
        "set -e; dd if=/dev/zero of=/tmp/soak-data bs=1M count=32 2>/dev/null; count=0; end=$(($(date +%s) + ".to_owned();
    script.append(decimal_text(secs).as_str());
    script.append(
        ")); while [ \"$(date +%s)\" -lt \"$end\" ]; do fio --name=randread --rw=randread --bs=4K --size=32M --runtime=1 --time_based --ioengine=sync --filename=/tmp/soak-data --output-format=json >/dev/null 2>&1 || break; count=$((count + 1)); done; echo \"workload_cycles=$count\"",
    );
    Command::new("sh").arg("-c").arg(script.as_str())
}

/// The number of rounds in the first line that reports them: zero where no line does, or what it
/// reports is not a number.
pub open spec fn cycles_in(lines: Seq<Seq<char>>) -> int
    decreases lines.len(),
{
    if lines.len() == 0 {
        0
    } else if starts(lines[0], "workload_cycles="@) {
        match parsed_u64(trimmed(lines[0].skip("workload_cycles="@.len() as int))) {
            Some(n) => n,
            None => 0,
        }
    } else {
        cycles_in(lines.drop_first())
    }
}

/// How many rounds the workload says that it completed.
pub fn workload_cycles(printed: &str) -> (r: u64)
    ensures
        r == cycles_in(lines(printed@)),
{
    let text = chars_of(printed);
    let all = split_lines(&text);
    let ghost model = views(all@);
    let mut i: usize = 0;
    assert(model.skip(0) == model);
    while i < all.len()
        invariant
            i <= all.len(),
            model == views(all@),
            model == lines(printed@),
            cycles_in(model) == cycles_in(model.skip(i as int)),
        decreases all.len() - i,
    {
        assert(model.skip(i as int)[0] == all@[i as int]@);
        assert(model.skip(i as int).drop_first() == model.skip(i + 1));
        if let Some(rest) = strip_prefix(&all[i], "workload_cycles=") {
            let number = trim(&rest);
            return match parse_u64(&number) {
                Some(n) => n,
                None => 0,
            };
        }
        i = i + 1;
    }
    0
}

/// `stability-soak-load`.
pub struct SoakLoad {
    pub home: Home,
    pub fio_installed: bool,
}

impl SoakLoad {
    pub fn new() -> (r: SoakLoad)
        ensures
            r.home.path is None,
            !r.fio_installed,
    {
        SoakLoad { home: Home::new(), fio_installed: false }
    }

    pub fn name(&self) -> (r: &'static str)
        ensures
            r@ == "stability-soak-load"@,
    {
        "stability-soak-load"
    }

    /// The steps of an iteration.
    pub fn script(&self, secs: u64) -> (r: Script)
        ensures
            r@ == seq![StepView::Create(alpine()), StepView::Start] + prepared_if(
                !self.fio_installed,
                install("fio"@),
            ) + seq![
                StepView::Spawn(workload(secs as nat)),
                StepView::Settle(500),
                StepView::Soak(secs, 2000),
                StepView::Await(5),
                StepView::Stop,
            ],
            one_box(r@),
    {
        let r = Script::new().then_run(alpine_options()).then_prepare_if(
            !self.fio_installed,
            install_command("fio"),
        ).then_do(Step::Spawn(workload_command(secs))).then_do(Step::Settle { ms: 500 }).then_do(
            Step::Soak { secs, interval_ms: 2000 },
        ).then_do(Step::Await { secs: 5 }).then_do(Step::Stop);
        assert(creates_at(r@, 0));
        r
    }

    /// Refuses a box in which `fio` could not be installed, and otherwise notes that it is.
    pub fn installed(&mut self, exit_code: i32) -> (r: Result<(), String>)
        ensures
            final(self).home == old(self).home,
            match r {
                Ok(()) => exit_code == 0 && final(self).fio_installed,
                Err(text) => {
                    &&& exit_code != 0
                    &&& final(self).fio_installed == old(self).fio_installed
                    &&& text@ == "apk add fio failed (exit "@ + integer_text(exit_code as int)
                        + ")"@
                },
            },
    {
        match check_exit(exit_code, "apk add fio failed (exit ", ")") {
            Ok(()) => {
                self.fio_installed = true;
                Ok(())
            },
            Err(text) => Err(text),
        }
    }

    /// The metrics of an iteration: how long the soak lasted, the samples of the memory and of
    /// the disk, the open files of the host before and after, and what the workload printed.
    pub fn metrics(
        &self,
        elapsed: Span,
        rss: &Vec<u64>,
        cow: &Vec<u64>,
        files_before: Option<u64>,
        files_after: Option<u64>,
        printed: &str,
    ) -> (r: Metrics)
        ensures
            r@ == with_some(
                with_some(
                    with_some(
                        with_some(
                            none().insert("soak_load_secs"@, elapsed.seconds()),
                            "rss_load_growth_bytes"@,
                            total_growth(rss@),
                        ),
                        "rss_load_max_bytes"@,
                        whole(largest(rss@)),
                    ),
                    "cow_load_growth_bytes"@,
                    total_growth(cow@),
                ),
                "fd_load_growth_count"@,
                known_growth(files_before, files_after),
            ).insert(
                "workload_cycles_completed_count"@,
                Double::integer(cycles_in(lines(printed@))),
            ),
    {
        let m = NameMap::new().with("soak_load_secs", elapsed.as_secs());
        let m = add_some(m, "rss_load_growth_bytes", first_to_last(rss));
        let m = add_some(m, "rss_load_max_bytes", max_number(rss));
        let m = add_some(m, "cow_load_growth_bytes", first_to_last(cow));
        let m = add_some(m, "fd_load_growth_count", known_difference(files_before, files_after));
        let cycles: u64 = workload_cycles(printed);
        m.with("workload_cycles_completed_count", Double::from_u64(cycles))
    }
}

/// The number of rounds is the number behind the key on the first line that begins with it, without
/// the white space round the number. Without such a line it is zero.
pub proof fn law_rounds_are_on_the_first_line(
    lines: Seq<Seq<char>>,
    i: int,
    front: Seq<char>,
    n: nat,
    back: Seq<char>,
)
    requires
        all_of(front, Class::Whitespace),
        all_of(back, Class::Whitespace),
        n <= u64::MAX,
    ensures
        0 <= i < lines.len() && lines[i] == "workload_cycles="@ + (front + decimal(n) + back) && (
        forall|j: int| 0 <= j < i ==> !starts(#[trigger] lines[j], "workload_cycles="@))
            ==> cycles_in(lines) == n,
        (forall|j: int| 0 <= j < lines.len() ==> !starts(#[trigger] lines[j], "workload_cycles="@))
            ==> cycles_in(lines) == 0,
    decreases lines.len(),
{
    if lines.len() > 0 {
        let key = "workload_cycles="@;
        let rest = lines.drop_first();
        law_rounds_are_on_the_first_line(rest, i - 1, front, n, back);
        if 0 <= i < lines.len() && (forall|j: int|
            0 <= j < i ==> !starts(#[trigger] lines[j], key)) {
            if i == 0 {
                let d = decimal(n);
                let value = front + d + back;
                let line = key + value;
                law_decimal_reads_back(n);
                assert(is_digit(d[0]) && is_digit(d[d.len() - 1]));
                law_trimmed_is_the_core(front, d, back);
                assert(line.take(key.len() as int) =~= key);
                assert(line.skip(key.len() as int) =~= value);
            } else {
                assert(!starts(lines[0], key));
                assert forall|j: int| 0 <= j < i - 1 implies !starts(#[trigger] rest[j], key) by {
                    assert(!starts(lines[j + 1], key));
                }
            }
        }
        if forall|j: int| 0 <= j < lines.len() ==> !starts(#[trigger] lines[j], key) {
            assert(!starts(lines[0], key));
            assert forall|j: int| 0 <= j < rest.len() implies !starts(#[trigger] rest[j], key) by {
                assert(!starts(lines[j + 1], key));
            }
        }
    }
}

} // verus!
