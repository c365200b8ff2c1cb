//! What is recorded about the machine that a benchmark ran on.
//!
//! Every source is optional: a part that could not be read leaves its field empty or zero, and
//! the rest of the record stands.

use crate::parts::{
    all_of, law_leading_is_dropped, law_trimmed_is_the_core, law_until_stops_at_the_class,
};
use crate::render::{decimal, law_decimal_reads_back};
use crate::text::{
    chars_of, drop_leading, is_digit, joined, lines, parse_u64, parsed_u64, split_lines, starts,
    string_of, strip_prefix, take_until, trim, trimmed, until, views, without_leading, Class,
};
use vstd::prelude::*;

verus! {

/// The machine that a benchmark ran on. A text that could not be read is empty, a size zero.
#[derive(Debug)]
pub struct HostInfo {
    pub kernel: String,
    pub arch: String,
    pub cpu_model: String,
    pub cpu_count: u32,
    pub mem_total_bytes: u64,
}

/// What the operating system says about the machine: the contents of files under `/proc` that
/// could be read, the architecture's name and the number of usable processors.
#[derive(Debug)]
pub struct HostSources {
    /// `/proc/sys/kernel/osrelease`.
    pub osrelease: Option<String>,
    /// `/proc/sys/kernel/ostype`.
    pub ostype: Option<String>,
    pub arch: String,
    /// `/proc/cpuinfo`.
    pub cpuinfo: Option<String>,
    pub cpu_count: u32,
    /// `/proc/meminfo`.
    pub meminfo: Option<String>,
}

/// The name and the release of the kernel, where both are known.
pub open spec fn kernel_of(ostype: Option<Seq<char>>, osrelease: Option<Seq<char>>) -> Option<
    Seq<char>,
> {
    match (ostype, osrelease) {
        (Some(name), Some(release)) => Some(trimmed(name) + " "@ + trimmed(release)),
        _ => None,
    }
}

/// The value that follows a key of `/proc/cpuinfo`.
pub open spec fn cpuinfo_value(rest: Seq<char>) -> Seq<char> {
    trimmed(without_leading(rest, Class::KeySeparator))
}

/// The value of the first line that names a processor model.
pub open spec fn cpu_model_of(lines: Seq<Seq<char>>) -> Option<Seq<char>>
    decreases lines.len(),
{
    if lines.len() == 0 {
        None
    } else if starts(lines[0], "model name"@) {
        Some(cpuinfo_value(lines[0].skip("model name"@.len() as int)))
    } else if starts(lines[0], "Processor"@) {
        Some(cpuinfo_value(lines[0].skip("Processor"@.len() as int)))
    } else {
        cpu_model_of(lines.drop_first())
    }
}

/// The number of bytes that the text after `MemTotal:` gives in kilobytes, at most `u64::MAX`.
pub open spec fn kilobytes(rest: Seq<char>) -> Option<int> {
    match parsed_u64(until(without_leading(rest, Class::Whitespace), Class::Whitespace)) {
        Some(kb) => Some(
            if kb * 1024 > u64::MAX {
                u64::MAX as int
            } else {
                kb * 1024
            },
        ),
        None => None,
    }
}

/// The memory that the first `MemTotal:` line reports.
pub open spec fn mem_total_of(lines: Seq<Seq<char>>) -> Option<int>
    decreases lines.len(),
{
    if lines.len() == 0 {
        None
    } else if starts(lines[0], "MemTotal:"@) {
        kilobytes(lines[0].skip("MemTotal:"@.len() as int))
    } else {
        mem_total_of(lines.drop_first())
    }
}

pub open spec fn text_of(s: Option<String>) -> Option<Seq<char>> {
    match s {
        Some(t) => Some(t@),
        None => None,
    }
}

/// The name and the release of the kernel, as `uname -sr` prints them.
pub fn read_kernel(ostype: &Option<String>, osrelease: &Option<String>) -> (r: Option<String>)
    ensures
        text_of(r) == kernel_of(text_of(*ostype), text_of(*osrelease)),
{
    match (ostype, osrelease) {
        (Some(name), Some(release)) => {
            let n = chars_of(name.as_str());
            let v = chars_of(release.as_str());
            let name: String = string_of(&trim(&n));
            let release: String = string_of(&trim(&v));
            let start = joined(name.as_str(), " ");
            Some(joined(start.as_str(), release.as_str()))
        },
        _ => None,
    }
}

/// The processor model in the contents of `/proc/cpuinfo`.
pub fn read_cpu_model(cpuinfo: &str) -> (r: Option<String>)
    ensures
        text_of(r) == cpu_model_of(lines(cpuinfo@)),
{
    let text = chars_of(cpuinfo);
    let all = split_lines(&text);
    let ghost model = views(all@);
    let mut i: usize = 0;
    assert(model.skip(0) == model);
    while i < all.len()
        invariant
            i <= all.len(),
            model == views(all@),
            model == lines(cpuinfo@),
            cpu_model_of(model) == cpu_model_of(model.skip(i as int)),
        decreases all.len() - i,
    {
        assert(model.skip(i as int)[0] == all@[i as int]@);
        assert(model.skip(i as int).drop_first() == model.skip(i + 1));
        let mut rest: Option<Vec<char>> = strip_prefix(&all[i], "model name");
        if rest.is_none() {
            rest = strip_prefix(&all[i], "Processor");
        }
        if let Some(value) = rest {
            let value = drop_leading(&value, Class::KeySeparator);
            return Some(string_of(&trim(&value)));
        }
        i = i + 1;
    }
    None
}

/// The memory size in the contents of `/proc/meminfo`.
pub fn read_mem_total_bytes(meminfo: &str) -> (r: Option<u64>)
    ensures
        match r {
            Some(n) => mem_total_of(lines(meminfo@)) == Some(n as int),
            None => mem_total_of(lines(meminfo@)) is None,
        },
{
    let text = chars_of(meminfo);
    let all = split_lines(&text);
    let ghost model = views(all@);
    let mut i: usize = 0;
    assert(model.skip(0) == model);
    while i < all.len()
        invariant
            i <= all.len(),
            model == views(all@),
            model == lines(meminfo@),
            mem_total_of(model) == mem_total_of(model.skip(i as int)),
        decreases all.len() - i,
    {
        assert(model.skip(i as int)[0] == all@[i as int]@);
        assert(model.skip(i as int).drop_first() == model.skip(i + 1));
        if let Some(rest) = strip_prefix(&all[i], "MemTotal:") {
            let rest = drop_leading(&rest, Class::Whitespace);
            let word = take_until(&rest, Class::Whitespace);
            return match parse_u64(&word) {
                Some(kb) => Some(
                    if kb > u64::MAX / 1024 {
                        u64::MAX
                    } else {
                        kb * 1024
                    },
                ),
                None => None,
            };
        }
        i = i + 1;
    }
    None
}

impl HostInfo {
    /// The record of a machine, from what could be read about it.
    pub fn snapshot(sources: &HostSources) -> (r: HostInfo)
        ensures
            r.kernel@ == match kernel_of(text_of(sources.ostype), text_of(sources.osrelease)) {
                Some(text) => text,
                None => Seq::empty(),
            },
            r.arch@ == sources.arch@,
            r.cpu_model@ == match sources.cpuinfo {
                Some(text) => match cpu_model_of(lines(text@)) {
                    Some(model) => model,
                    None => Seq::empty(),
                },
                None => Seq::empty(),
            },
            r.cpu_count == sources.cpu_count,
            r.mem_total_bytes == match sources.meminfo {
                Some(text) => match mem_total_of(lines(text@)) {
                    Some(n) => n,
                    None => 0,
                },
                None => 0,
            },
    {
        let kernel: String = match read_kernel(&sources.ostype, &sources.osrelease) {
            Some(text) => text,
            None => String::new(),
        };
        let cpu_model: String = match &sources.cpuinfo {
            Some(text) => match read_cpu_model(text.as_str()) {
                Some(model) => model,
                None => String::new(),
            },
            None => String::new(),
        };
        let mem_total_bytes: u64 = match &sources.meminfo {
            Some(text) => match read_mem_total_bytes(text.as_str()) {
                Some(n) => n,
                None => 0,
            },
            None => 0,
        };
        HostInfo {
            kernel,
            arch: sources.arch.clone(),
            cpu_model,
            cpu_count: sources.cpu_count,
            mem_total_bytes,
        }
    }
}

/// The kernel is known where its name and its release are, and is the two with a space between
/// them, without the white space round each.
pub proof fn law_kernel_is_name_and_release(
    name: Seq<char>,
    release: Seq<char>,
    front: Seq<char>,
    back: Seq<char>,
)
    requires
        all_of(front, Class::Whitespace),
        all_of(back, Class::Whitespace),
        name.len() > 0 ==> !Class::Whitespace.has(name[0]) && !Class::Whitespace.has(name.last()),
        release.len() > 0 ==> !Class::Whitespace.has(release[0]) && !Class::Whitespace.has(
            release.last(),
        ),
    ensures
        kernel_of(Some(front + name + back), Some(front + release + back)) == Some(
            name + seq![' '] + release,
        ),
        kernel_of(None, Some(release)) is None,
        kernel_of(Some(name), None) is None,
        kernel_of(None, None) is None,
{
    law_trimmed_is_the_core(front, name, back);
    law_trimmed_is_the_core(front, release, back);
    reveal_strlit(" ");
    assert(" "@ =~= seq![' ']);
}

/// Whether a line names a processor model.
pub open spec fn names_model(line: Seq<char>) -> bool {
    starts(line, "model name"@) || starts(line, "Processor"@)
}

/// The processor model is the value on the first line that names one, between the separators
/// behind its key and the white space at its end. Without such a line there is none.
pub proof fn law_model_is_on_the_first_line(
    lines: Seq<Seq<char>>,
    i: int,
    separators: Seq<char>,
    value: Seq<char>,
    back: Seq<char>,
)
    requires
        all_of(separators, Class::KeySeparator),
        all_of(back, Class::Whitespace),
        value.len() > 0,
        !Class::KeySeparator.has(value[0]),
        !Class::Whitespace.has(value[0]),
        !Class::Whitespace.has(value.last()),
    ensures
        0 <= i < lines.len() && (lines[i] == "model name"@ + separators + value + back || lines[i]
            == "Processor"@ + separators + value + back) && (forall|j: int|
            0 <= j < i ==> !names_model(#[trigger] lines[j])) ==> cpu_model_of(lines) == Some(value),
        (forall|j: int| 0 <= j < lines.len() ==> !names_model(#[trigger] lines[j]))
            ==> cpu_model_of(lines) is None,
    decreases lines.len(),
{
    if lines.len() > 0 {
        let rest = lines.drop_first();
        assert forall|j: int| 0 <= j < rest.len() implies rest[j] == #[trigger] lines[j + 1] by {}
        law_model_is_on_the_first_line(rest, i - 1, separators, value, back);
        if 0 <= i < lines.len() && (forall|j: int|
            0 <= j < i ==> !names_model(#[trigger] lines[j])) {
            if i == 0 {
                lemma_model_value("model name"@, separators, value, back);
                lemma_model_value("Processor"@, separators, value, back);
                reveal_strlit("model name");
                reveal_strlit("Processor");
                let other = "Processor"@ + separators + value + back;
                if lines[0] == other && starts(lines[0], "model name"@) {
                    assert(lines[0].take(10)[0] == "model name"@[0]);
                    assert(other[0] == "Processor"@[0]);
                }
            } else {
                assert(!names_model(lines[0]));
                assert forall|j: int| 0 <= j < i - 1 implies !names_model(#[trigger] rest[j]) by {
                    assert(!names_model(lines[j + 1]));
                }
            }
        }
        if forall|j: int| 0 <= j < lines.len() ==> !names_model(#[trigger] lines[j]) {
            assert(!names_model(lines[0]));
            assert forall|j: int| 0 <= j < rest.len() implies !names_model(#[trigger] rest[j]) by {
                assert(!names_model(lines[j + 1]));
            }
        }
    }
}

proof fn lemma_model_value(
    key: Seq<char>,
    separators: Seq<char>,
    value: Seq<char>,
    back: Seq<char>,
)
    requires
        all_of(separators, Class::KeySeparator),
        all_of(back, Class::Whitespace),
        value.len() > 0,
        !Class::KeySeparator.has(value[0]),
        !Class::Whitespace.has(value[0]),
        !Class::Whitespace.has(value.last()),
    ensures
        starts(key + separators + value + back, key),
        cpuinfo_value((key + separators + value + back).skip(key.len() as int)) == value,
{
    let line = key + separators + value + back;
    assert(line.take(key.len() as int) =~= key);
    assert(line.skip(key.len() as int) =~= separators + (value + back));
    law_leading_is_dropped(separators, value + back, Class::KeySeparator);
    assert(Seq::<char>::empty() + value + back =~= value + back);
    law_trimmed_is_the_core(Seq::empty(), value, back);
}

/// The memory is 1024 times the number of kilobytes on the first line that begins with
/// `MemTotal:`, as far as that can be held. Without such a line it is not known.
pub proof fn law_memory_is_on_the_first_line(
    lines: Seq<Seq<char>>,
    i: int,
    blanks: Seq<char>,
    kb: nat,
    back: Seq<char>,
)
    requires
        all_of(blanks, Class::Whitespace),
        back.len() > 0 ==> Class::Whitespace.has(back[0]),
        kb <= u64::MAX,
    ensures
        0 <= i < lines.len() && lines[i] == "MemTotal:"@ + blanks + decimal(kb) + back && (forall|
            j: int,
        |
            0 <= j < i ==> !starts(#[trigger] lines[j], "MemTotal:"@)) ==> {
            &&& kb * 1024 <= u64::MAX ==> mem_total_of(lines) == Some(kb as int * 1024)
            &&& kb * 1024 > u64::MAX ==> mem_total_of(lines) == Some(u64::MAX as int)
        },
        (forall|j: int| 0 <= j < lines.len() ==> !starts(#[trigger] lines[j], "MemTotal:"@))
            ==> mem_total_of(lines) is None,
    decreases lines.len(),
{
    if lines.len() > 0 {
        let key = "MemTotal:"@;
        let rest = lines.drop_first();
        assert forall|j: int| 0 <= j < rest.len() implies rest[j] == #[trigger] lines[j + 1] by {}
        law_memory_is_on_the_first_line(rest, i - 1, blanks, kb, back);
        if 0 <= i < lines.len() && (forall|j: int|
            0 <= j < i ==> !starts(#[trigger] lines[j], "MemTotal:"@)) {
            if i == 0 {
                let d = decimal(kb);
                let line = key + blanks + d + back;
                law_decimal_reads_back(kb);
                assert forall|k: int| 0 <= k < d.len() implies !Class::Whitespace.has(
                    #[trigger] d[k],
                ) by {
                    assert(is_digit(d[k]));
                }
                assert(line.take(key.len() as int) =~= key);
                assert(line.skip(key.len() as int) =~= blanks + (d + back));
                assert(!Class::Whitespace.has(d[0]));
                law_leading_is_dropped(blanks, d + back, Class::Whitespace);
                law_until_stops_at_the_class(d, back, Class::Whitespace);
            } else {
                assert(!starts(lines[0], "MemTotal:"@));
                assert forall|j: int| 0 <= j < i - 1 implies !starts(
                    #[trigger] rest[j],
                    "MemTotal:"@,
                ) by {
                    assert(!starts(lines[j + 1], "MemTotal:"@));
                }
            }
        }
        if forall|j: int| 0 <= j < lines.len() ==> !starts(#[trigger] lines[j], "MemTotal:"@) {
            assert(!starts(lines[0], "MemTotal:"@));
            assert forall|j: int| 0 <= j < rest.len() implies !starts(
                #[trigger] rest[j],
                "MemTotal:"@,
            ) by {
                assert(!starts(lines[j + 1], "MemTotal:"@));
            }
        }
    }
}

} // verus!
