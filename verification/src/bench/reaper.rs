//! Finding the leftovers of an interrupted run among the descendants of the process.
//!
//! The descendants are visited breadth first. Virtual machines and their shims are killed;
//! other processes are left alone, and their own children are visited all the same.

use crate::parts::{all_of, law_numbers_are_read_back, law_trimmed_is_the_core};
use crate::render::{decimal, decimal_text};
use crate::text::{
    chars_of, equal, is_digit, parse_i32, parsed_i32, split_words, string_of, trim, trimmed, views,
    words, Class,
};
use std::collections::VecDeque;
use vstd::prelude::*;

verus! {

/// The process numbers among the words of a list of children. Other words are skipped.
pub open spec fn process_numbers(list: Seq<Seq<char>>) -> Seq<i32>
    decreases list.len(),
{
    if list.len() == 0 {
        Seq::empty()
    } else {
        let front = process_numbers(list.drop_last());
        match parsed_i32(list.last()) {
            Some(n) => front.push(n as i32),
            None => front,
        }
    }
}

/// The children that the contents of `/proc/<pid>/task/<pid>/children` list: none where the file
/// could not be read.
pub open spec fn children_of(listing: Option<Seq<char>>) -> Seq<i32> {
    match listing {
        Some(text) => process_numbers(words(text, Class::AsciiWhitespace)),
        None => Seq::empty(),
    }
}

/// Whether a process of this name is killed, the name being the contents of `/proc/<pid>/comm`.
pub open spec fn is_leftover(comm: Option<Seq<char>>) -> bool {
    match comm {
        Some(text) => trimmed(text) == "libkrun VM"@ || trimmed(text) == "boxlite-shim"@,
        None => false,
    }
}

pub open spec fn text_of(s: Option<&str>) -> Option<Seq<char>> {
    match s {
        Some(t) => Some(t@),
        None => None,
    }
}

/// A walk over the descendants of the process.
#[derive(Debug)]
pub struct Reaper {
    /// The processes that are still to be visited.
    pub queue: VecDeque<i32>,
    /// How many processes were to be killed.
    pub killed: usize,
}

fn list_children(listing: Option<&str>) -> (r: Vec<i32>)
    ensures
        r@ == children_of(text_of(listing)),
{
    let mut r: Vec<i32> = Vec::new();
    if let Some(text) = listing {
        let chars = chars_of(text);
        let list = split_words(&chars, Class::AsciiWhitespace);
        let ghost all = views(list@);
        let mut i: usize = 0;
        assert(all.take(0) == Seq::<Seq<char>>::empty());
        while i < list.len()
            invariant
                i <= list.len(),
                all == views(list@),
                r@ == process_numbers(all.take(i as int)),
            decreases list.len() - i,
        {
            assert(all.take(i + 1).drop_last() == all.take(i as int));
            assert(all.take(i + 1).last() == list@[i as int]@);
            if let Some(pid) = parse_i32(&list[i]) {
                r.push(pid);
            }
            i = i + 1;
        }
        assert(all.take(list.len() as int) == all);
    }
    r
}

fn leftover(comm: Option<&str>) -> (r: bool)
    ensures
        r == is_leftover(text_of(comm)),
{
    match comm {
        Some(text) => {
            let v = chars_of(text);
            let name = string_of(&trim(&v));
            equal(name.as_str(), "libkrun VM") || equal(name.as_str(), "boxlite-shim")
        },
        None => false,
    }
}

/// What is left to visit after `n` processes were, where `children` lists those of each process.
pub open spec fn unvisited(queue: Seq<i32>, children: spec_fn(i32) -> Seq<i32>, n: nat) -> Seq<i32>
    decreases n,
{
    if n == 0 || queue.len() == 0 {
        queue
    } else {
        unvisited(queue.drop_first() + children(queue[0]), children, (n - 1) as nat)
    }
}

/// The first `n` processes that are visited.
pub open spec fn visits(queue: Seq<i32>, children: spec_fn(i32) -> Seq<i32>, n: nat) -> Seq<i32>
    decreases n,
{
    if n == 0 || queue.len() == 0 {
        Seq::empty()
    } else {
        seq![queue[0]] + visits(
            queue.drop_first() + children(queue[0]),
            children,
            (n - 1) as nat,
        )
    }
}

/// Whether each process of `line` but the first is a child of the one before it.
pub open spec fn is_line(line: Seq<i32>, children: spec_fn(i32) -> Seq<i32>) -> bool {
    &&& line.len() > 0
    &&& forall|i: int|
        0 < i < line.len() ==> children(line[i - 1]).contains(#[trigger] line[i])
}

/// Whether `process` is one of the processes `from`, or descends from one of them.
pub open spec fn belongs(from: Seq<i32>, process: i32, children: spec_fn(i32) -> Seq<i32>) -> bool {
    exists|line: Seq<i32>| #[trigger]
        is_line(line, children) && from.contains(line[0]) && line.last() == process
}

/// Visiting the first process replaces it by its children.
proof fn lemma_first_visit(queue: Seq<i32>, process: i32, children: spec_fn(i32) -> Seq<i32>)
    requires
        queue.len() > 0,
    ensures
        belongs(queue, process, children) <==> process == queue[0] || belongs(
            queue.drop_first() + children(queue[0]),
            process,
            children,
        ),
{
    let list = children(queue[0]);
    let rest = queue.drop_first();
    let next = rest + list;
    if belongs(queue, process, children) && process != queue[0] {
        let line = choose|line: Seq<i32>| #[trigger]
            is_line(line, children) && queue.contains(line[0]) && line.last() == process;
        let i = choose|i: int| 0 <= i < queue.len() && queue[i] == line[0];
        if i > 0 {
            assert(next[i - 1] == line[0]);
            assert(is_line(line, children));
        } else {
            let tail = line.drop_first();
            assert forall|j: int| 0 < j < tail.len() implies children(tail[j - 1]).contains(
                #[trigger] tail[j],
            ) by {
                assert(tail[j] == line[j + 1]);
            }
            assert(list.contains(line[1]));
            let k = choose|k: int| 0 <= k < list.len() && list[k] == line[1];
            assert(next[rest.len() + k] == tail[0]);
            assert(is_line(tail, children));
        }
    }
    if process == queue[0] {
        assert(is_line(seq![process], children));
    }
    if belongs(next, process, children) {
        let line = choose|line: Seq<i32>| #[trigger]
            is_line(line, children) && next.contains(line[0]) && line.last() == process;
        let i = choose|i: int| 0 <= i < next.len() && next[i] == line[0];
        if i < rest.len() {
            assert(queue[i + 1] == line[0]);
            assert(is_line(line, children));
        } else {
            let longer = seq![queue[0]] + line;
            assert(list[i - rest.len()] == line[0]);
            assert forall|j: int| 0 < j < longer.len() implies children(longer[j - 1]).contains(
                #[trigger] longer[j],
            ) by {
                assert(longer[j] == line[j - 1]);
            }
            assert(is_line(longer, children));
        }
    }
}

/// A walk that has come to its end visited every descendant, and nothing else.
pub proof fn law_walk_visits_descendants(
    queue: Seq<i32>,
    children: spec_fn(i32) -> Seq<i32>,
    n: nat,
    process: i32,
)
    requires
        unvisited(queue, children, n).len() == 0,
    ensures
        visits(queue, children, n).contains(process) <==> belongs(queue, process, children),
    decreases n,
{
    if n > 0 && queue.len() > 0 {
        let next = queue.drop_first() + children(queue[0]);
        let rest = visits(next, children, (n - 1) as nat);
        law_walk_visits_descendants(next, children, (n - 1) as nat, process);
        lemma_first_visit(queue, process, children);
        let all = visits(queue, children, n);
        assert(all == seq![queue[0]] + rest);
        if rest.contains(process) {
            let k = choose|k: int| 0 <= k < rest.len() && rest[k] == process;
            assert(all[k + 1] == process);
        }
        if all.contains(process) && process != queue[0] {
            let k = choose|k: int| 0 <= k < all.len() && all[k] == process;
            assert(rest[k - 1] == process);
        }
        if process == queue[0] {
            assert(all[0] == process);
        }
    }
}

impl Reaper {
    /// A walk that starts with the children of the process itself.
    pub fn new(listing: Option<&str>) -> (r: Reaper)
        ensures
            r.queue@ == children_of(text_of(listing)),
            r.killed == 0,
    {
        let mut r = Reaper { queue: VecDeque::new(), killed: 0 };
        r.enqueue(listing);
        assert(Seq::<i32>::empty() + children_of(text_of(listing)) == children_of(
            text_of(listing),
        ));
        r
    }

    fn enqueue(&mut self, listing: Option<&str>)
        ensures
            final(self).queue@ == old(self).queue@ + children_of(text_of(listing)),
            final(self).killed == old(self).killed,
    {
        let list = list_children(listing);
        let ghost start = self.queue@;
        let mut i: usize = 0;
        while i < list.len()
            invariant
                i <= list.len(),
                self.queue@ == start + list@.take(i as int),
                self.killed == old(self).killed,
            decreases list.len() - i,
        {
            self.queue.push_back(list[i]);
            i = i + 1;
            assert(self.queue@ =~= start + list@.take(i as int));
        }
        assert(list@.take(list.len() as int) == list@);
    }

    /// The next process to visit.
    pub fn next(&mut self) -> (r: Option<i32>)
        ensures
            final(self).killed == old(self).killed,
            match r {
                Some(pid) => {
                    &&& old(self).queue@.len() > 0
                    &&& pid == old(self).queue@[0]
                    &&& final(self).queue@ == old(self).queue@.drop_first()
                },
                None => old(self).queue@.len() == 0 && final(self).queue@ == old(self).queue@,
            },
    {
        self.queue.pop_front()
    }

    /// Visits a process, given its children and its name, and says whether to kill it.
    pub fn visit(&mut self, listing: Option<&str>, comm: Option<&str>) -> (r: bool)
        requires
            old(self).killed < usize::MAX,
        ensures
            r == is_leftover(text_of(comm)),
            final(self).queue@ == old(self).queue@ + children_of(text_of(listing)),
            final(self).killed == old(self).killed + if r {
                1int
            } else {
                0
            },
    {
        self.enqueue(listing);
        let kill: bool = leftover(comm);
        if kill {
            self.killed = self.killed + 1;
        }
        kill
    }

    /// What is said about the walk when it is over: nothing where no process was killed.
    pub fn message(&self) -> (r: Option<String>)
        ensures
            r is Some <==> self.killed > 0,
            r matches Some(text) ==> text@ == "⚠️  reaped "@ + decimal(self.killed as nat)
                + " orphan VM/shim descendant(s) after interrupted run"@,
    {
        if self.killed > 0 {
            let mut r: String = "⚠️  reaped ".to_owned();
            r.append(decimal_text(self.killed as u64).as_str());
            r.append(" orphan VM/shim descendant(s) after interrupted run");
            Some(r)
        } else {
            None
        }
    }
}

/// A process number more in the list is a child more, behind the others; a word that is none, because
/// something other than a digit stands behind its first character, adds nothing.
pub proof fn law_numbers_are_the_children(list: Seq<Seq<char>>, n: nat, word: Seq<char>)
    ensures
        n <= i32::MAX ==> process_numbers(list.push(decimal(n))) == process_numbers(list).push(
            n as i32,
        ),
        (exists|i: int| 1 <= i < word.len() && !is_digit(#[trigger] word[i])) ==> process_numbers(
            list.push(word),
        ) == process_numbers(list),
        process_numbers(Seq::empty()) == Seq::<i32>::empty(),
{
    law_numbers_are_read_back(n, word);
    assert(list.push(decimal(n)).drop_last() =~= list);
    assert(list.push(word).drop_last() =~= list);
}

/// A process is killed exactly where its name, without the white space round it, is that of a
/// virtual machine or of a shim. One whose name is not known is left alone.
pub proof fn law_leftovers_go_by_their_name(front: Seq<char>, name: Seq<char>, back: Seq<char>)
    requires
        all_of(front, Class::Whitespace),
        all_of(back, Class::Whitespace),
        name.len() > 0 ==> !Class::Whitespace.has(name[0]) && !Class::Whitespace.has(name.last()),
    ensures
        is_leftover(Some(front + name + back)) <==> name == "libkrun VM"@ || name
            == "boxlite-shim"@,
        !is_leftover(None),
{
    law_trimmed_is_the_core(front, name, back);
}

} // verus!
