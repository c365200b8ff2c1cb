//! Text as sequences of characters: splitting, trimming, number parsing and padding.

use vstd::prelude::*;

verus! {

/// `String::push`: appends one character to the end of the string.
pub assume_specification[ String::push ](s: &mut String, c: char)
    ensures
        final(s)@ == old(s)@.push(c),
;

/// A class of characters that splitting and trimming treat alike.
#[derive(Clone, Copy, PartialEq, Eq, Structural)]
pub enum Class {
    /// The Unicode property `White_Space`.
    Whitespace,
    /// Space, tab, line feed, form feed and carriage return.
    AsciiWhitespace,
    /// `Whitespace`, and the comma.
    WhitespaceOrComma,
    /// Space, tab and colon: what stands between a key of `/proc/cpuinfo` and its value.
    KeySeparator,
}

pub open spec fn is_whitespace(c: char) -> bool {
    ||| '\u{9}' <= c <= '\u{d}'
    ||| c == '\u{20}'
    ||| c == '\u{85}'
    ||| c == '\u{a0}'
    ||| c == '\u{1680}'
    ||| '\u{2000}' <= c <= '\u{200a}'
    ||| c == '\u{2028}'
    ||| c == '\u{2029}'
    ||| c == '\u{202f}'
    ||| c == '\u{205f}'
    ||| c == '\u{3000}'
}

impl Class {
    pub open spec fn has(self, c: char) -> bool {
        match self {
            Class::Whitespace => is_whitespace(c),
            Class::AsciiWhitespace => c == ' ' || c == '\t' || c == '\n' || c == '\u{c}' || c
                == '\r',
            Class::WhitespaceOrComma => is_whitespace(c) || c == ',',
            Class::KeySeparator => c == ' ' || c == '\t' || c == ':',
        }
    }

    pub fn holds(self, c: char) -> (r: bool)
        ensures
            r == self.has(c),
    {
        match self {
            Class::Whitespace => whitespace(c),
            Class::AsciiWhitespace => c == ' ' || c == '\t' || c == '\n' || c == '\u{c}' || c
                == '\r',
            Class::WhitespaceOrComma => whitespace(c) || c == ',',
            Class::KeySeparator => c == ' ' || c == '\t' || c == ':',
        }
    }
}

fn whitespace(c: char) -> (r: bool)
    ensures
        r == is_whitespace(c),
{
    ('\u{9}' <= c && c <= '\u{d}') || c == '\u{20}' || c == '\u{85}' || c == '\u{a0}' || c
        == '\u{1680}' || ('\u{2000}' <= c && c <= '\u{200a}') || c == '\u{2028}' || c == '\u{2029}'
        || c == '\u{202f}' || c == '\u{205f}' || c == '\u{3000}'
}

/// The characters of a string.
pub fn chars_of(s: &str) -> (r: Vec<char>)
    ensures
        r@ == s@,
{
    let mut r: Vec<char> = Vec::new();
    for c in iter: s.chars()
        invariant
            r@ == iter.seq().take(iter.index() as int),
            iter.seq() == s@,
    {
        r.push(c);
    }
    r
}

/// The characters as a string.
pub fn string_of(v: &Vec<char>) -> (r: String)
    ensures
        r@ == v@,
{
    let mut r: String = String::new();
    let mut i: usize = 0;
    while i < v.len()
        invariant
            i <= v.len(),
            r@ == v@.take(i as int),
        decreases v.len() - i,
    {
        r.push(v[i]);
        i = i + 1;
    }
    assert(v@.take(v.len() as int) == v@);
    r
}

pub fn slice(v: &Vec<char>, from: usize, to: usize) -> (r: Vec<char>)
    requires
        from <= to <= v.len(),
    ensures
        r@ == v@.subrange(from as int, to as int),
{
    let mut r: Vec<char> = Vec::new();
    let mut i: usize = from;
    while i < to
        invariant
            from <= i <= to <= v.len(),
            r@ == v@.subrange(from as int, i as int),
        decreases to - i,
    {
        r.push(v[i]);
        i = i + 1;
    }
    r
}

/// `s` without the characters of `class` at its start.
pub open spec fn without_leading(s: Seq<char>, class: Class) -> Seq<char>
    decreases s.len(),
{
    if s.len() > 0 && class.has(s[0]) {
        without_leading(s.drop_first(), class)
    } else {
        s
    }
}

/// `s` without the characters of `class` at its end.
pub open spec fn without_trailing(s: Seq<char>, class: Class) -> Seq<char>
    decreases s.len(),
{
    if s.len() > 0 && class.has(s.last()) {
        without_trailing(s.drop_last(), class)
    } else {
        s
    }
}

/// `s` without whitespace at either end.
pub open spec fn trimmed(s: Seq<char>) -> Seq<char> {
    without_trailing(without_leading(s, Class::Whitespace), Class::Whitespace)
}

/// `s` up to its first character of `class`.
pub open spec fn until(s: Seq<char>, class: Class) -> Seq<char>
    decreases s.len(),
{
    if s.len() == 0 || class.has(s[0]) {
        Seq::empty()
    } else {
        seq![s[0]] + until(s.drop_first(), class)
    }
}

/// `s` up to its first `stop`, or all of `s`.
pub open spec fn before(s: Seq<char>, stop: char) -> Seq<char>
    decreases s.len(),
{
    if s.len() == 0 || s[0] == stop {
        Seq::empty()
    } else {
        seq![s[0]] + before(s.drop_first(), stop)
    }
}

pub fn drop_leading(v: &Vec<char>, class: Class) -> (r: Vec<char>)
    ensures
        r@ == without_leading(v@, class),
{
    let mut i: usize = 0;
    assert(v@.skip(0) == v@);
    while i < v.len() && class.holds(v[i])
        invariant
            i <= v.len(),
            without_leading(v@, class) == without_leading(v@.skip(i as int), class),
        decreases v.len() - i,
    {
        assert(v@.skip(i as int).drop_first() == v@.skip(i + 1));
        i = i + 1;
    }
    let r = slice(v, i, v.len());
    assert(r@ == v@.skip(i as int));
    r
}

pub fn drop_trailing(v: &Vec<char>, class: Class) -> (r: Vec<char>)
    ensures
        r@ == without_trailing(v@, class),
{
    let mut n: usize = v.len();
    assert(v@.take(n as int) == v@);
    while n > 0 && class.holds(v[n - 1])
        invariant
            n <= v.len(),
            without_trailing(v@, class) == without_trailing(v@.take(n as int), class),
        decreases n,
    {
        assert(v@.take(n as int).drop_last() == v@.take(n - 1));
        n = n - 1;
    }
    let r = slice(v, 0, n);
    assert(r@ == v@.take(n as int));
    r
}

pub fn trim(v: &Vec<char>) -> (r: Vec<char>)
    ensures
        r@ == trimmed(v@),
{
    let lead = drop_leading(v, Class::Whitespace);
    drop_trailing(&lead, Class::Whitespace)
}

pub fn take_until(v: &Vec<char>, class: Class) -> (r: Vec<char>)
    ensures
        r@ == until(v@, class),
{
    let mut i: usize = 0;
    assert(v@.skip(0) == v@);
    while i < v.len() && !class.holds(v[i])
        invariant
            i <= v.len(),
            until(v@, class) == v@.take(i as int) + until(v@.skip(i as int), class),
        decreases v.len() - i,
    {
        assert(v@.skip(i as int).drop_first() == v@.skip(i + 1));
        assert(v@.take(i as int) + seq![v@[i as int]] == v@.take(i + 1));
        i = i + 1;
    }
    let r = slice(v, 0, i);
    assert(r@ == v@.take(i as int));
    r
}

pub fn take_before(v: &Vec<char>, stop: char) -> (r: Vec<char>)
    ensures
        r@ == before(v@, stop),
{
    let mut i: usize = 0;
    assert(v@.skip(0) == v@);
    while i < v.len() && v[i] != stop
        invariant
            i <= v.len(),
            before(v@, stop) == v@.take(i as int) + before(v@.skip(i as int), stop),
        decreases v.len() - i,
    {
        assert(v@.skip(i as int).drop_first() == v@.skip(i + 1));
        assert(v@.take(i as int) + seq![v@[i as int]] == v@.take(i + 1));
        i = i + 1;
    }
    let r = slice(v, 0, i);
    assert(r@ == v@.take(i as int));
    r
}

/// `line` without the carriage return that may end it.
pub open spec fn without_return(line: Seq<char>) -> Seq<char> {
    if line.len() > 0 && line.last() == '\r' {
        line.drop_last()
    } else {
        line
    }
}

/// The lines of a text. A line ends with a line feed, or with a carriage return and a line feed;
/// the end of the last line may be missing.
pub open spec fn lines(s: Seq<char>) -> Seq<Seq<char>>
    decreases s.len(),
{
    if s.len() == 0 {
        Seq::empty()
    } else if before(s, '\n').len() >= s.len() {
        seq![s]
    } else {
        seq![without_return(before(s, '\n'))] + lines(s.skip(before(s, '\n').len() as int + 1))
    }
}

proof fn lemma_before(s: Seq<char>, stop: char, n: int)
    requires
        0 <= n <= s.len(),
        forall|i: int| 0 <= i < n ==> s[i] != stop,
        n < s.len() ==> s[n] == stop,
    ensures
        before(s, stop) == s.take(n),
    decreases s.len(),
{
    if n > 0 {
        lemma_before(s.drop_first(), stop, n - 1);
        assert(s.take(n) == seq![s[0]] + s.drop_first().take(n - 1));
    } else {
        assert(s.take(0) == Seq::<char>::empty());
    }
}

/// A text cut into lines, each a sequence of characters.
pub open spec fn views(v: Seq<Vec<char>>) -> Seq<Seq<char>> {
    v.map_values(|x: Vec<char>| x@)
}

pub fn split_lines(v: &Vec<char>) -> (r: Vec<Vec<char>>)
    ensures
        views(r@) == lines(v@),
{
    let mut r: Vec<Vec<char>> = Vec::new();
    let mut start: usize = 0;
    assert(v@.skip(0) == v@);
    assert(views(r@) + lines(v@.skip(0)) == lines(v@));
    while start < v.len()
        invariant
            start <= v.len(),
            views(r@) + lines(v@.skip(start as int)) == lines(v@),
        decreases v.len() - start,
    {
        let mut end: usize = start;
        while end < v.len() && v[end] != '\n'
            invariant
                start <= end <= v.len(),
                forall|i: int| start <= i < end ==> v@[i] != '\n',
            decreases v.len() - end,
        {
            end = end + 1;
        }
        let ghost rest = v@.skip(start as int);
        let ghost done = views(r@);
        proof {
            lemma_before(rest, '\n', end - start);
            assert(rest.take(end - start) == v@.subrange(start as int, end as int));
        }
        if end == v.len() {
            let line = slice(v, start, end);
            r.push(line);
            proof {
                assert(line@ == rest);
                assert(views(r@) == done.push(rest));
                assert(done + seq![rest] == done.push(rest));
                assert(v@.skip(end as int) == Seq::<char>::empty());
                assert(views(r@) + lines(v@.skip(end as int)) == views(r@));
            }
            start = end;
        } else {
            let stop: usize = if end > start && v[end - 1] == '\r' {
                end - 1
            } else {
                end
            };
            let line = slice(v, start, stop);
            r.push(line);
            proof {
                let whole = v@.subrange(start as int, end as int);
                assert(line@ == without_return(whole));
                assert(views(r@) == done.push(line@));
                assert(rest.skip(end - start + 1) == v@.skip(end + 1));
                assert(done + (seq![line@] + lines(v@.skip(end + 1))) == done.push(line@) + lines(
                    v@.skip(end + 1),
                ));
            }
            start = end + 1;
        }
    }
    assert(v@.skip(v.len() as int) == Seq::<char>::empty());
    assert(views(r@) + lines(v@.skip(start as int)) == views(r@));
    r
}

/// Whether `s` starts with `prefix`.
pub open spec fn starts(s: Seq<char>, prefix: Seq<char>) -> bool {
    prefix.len() <= s.len() && s.take(prefix.len() as int) == prefix
}

/// Whether `s` ends with `suffix`.
pub open spec fn ends(s: Seq<char>, suffix: Seq<char>) -> bool {
    suffix.len() <= s.len() && s.skip(s.len() - suffix.len()) == suffix
}

/// Whether `needle` stands in `s` at index `at`.
pub open spec fn stands_at(s: Seq<char>, needle: Seq<char>, at: int) -> bool {
    0 <= at <= s.len() - needle.len() && s.subrange(at, at + needle.len()) == needle
}

pub fn found_at(v: &Vec<char>, needle: &Vec<char>, at: usize) -> (r: bool)
    requires
        at <= v.len(),
    ensures
        r == stands_at(v@, needle@, at as int),
{
    if needle.len() > v.len() - at {
        return false;
    }
    let mut i: usize = 0;
    while i < needle.len()
        invariant
            i <= needle.len() <= v.len() - at,
            at <= v.len(),
            forall|j: int| 0 <= j < i ==> v@[at + j] == needle@[j],
        decreases needle.len() - i,
    {
        if v[at + i] != needle[i] {
            proof {
                let part = v@.subrange(at as int, at + needle.len());
                assert(part[i as int] == v@[at + i]);
            }
            return false;
        }
        i = i + 1;
    }
    assert(v@.subrange(at as int, at + needle.len()) == needle@);
    true
}

pub fn starts_with(v: &Vec<char>, prefix: &str) -> (r: bool)
    ensures
        r == starts(v@, prefix@),
{
    let p = chars_of(prefix);
    assert(p.len() <= v.len() ==> v@.subrange(0, p.len() as int) == v@.take(p.len() as int));
    found_at(v, &p, 0)
}

pub fn ends_with(s: &str, suffix: &str) -> (r: bool)
    ensures
        r == ends(s@, suffix@),
{
    let v = chars_of(s);
    let p = chars_of(suffix);
    if p.len() > v.len() {
        return false;
    }
    assert(v@.subrange(v.len() - p.len(), v.len() as int) == v@.skip(v.len() - p.len()));
    found_at(&v, &p, v.len() - p.len())
}

/// The text after `prefix`, where `v` starts with it.
pub fn strip_prefix(v: &Vec<char>, prefix: &str) -> (r: Option<Vec<char>>)
    ensures
        r is Some == starts(v@, prefix@),
        r matches Some(rest) ==> rest@ == v@.skip(prefix@.len() as int),
{
    if starts_with(v, prefix) {
        let p = chars_of(prefix);
        let rest = slice(v, p.len(), v.len());
        assert(rest@ == v@.skip(p.len() as int));
        Some(rest)
    } else {
        None
    }
}

/// The last index up to `at` at which `needle` stands in `s`.
pub open spec fn last_index_to(s: Seq<char>, needle: Seq<char>, at: int) -> Option<int>
    decreases at + 1,
{
    if at < 0 {
        None
    } else if stands_at(s, needle, at) {
        Some(at)
    } else {
        last_index_to(s, needle, at - 1)
    }
}

/// The last index at which `needle` stands in `s`.
pub open spec fn last_index(s: Seq<char>, needle: Seq<char>) -> Option<int> {
    last_index_to(s, needle, s.len() - needle.len())
}

pub fn find_last(v: &Vec<char>, needle: &str) -> (r: Option<usize>)
    ensures
        match r {
            Some(at) => last_index(v@, needle@) == Some(at as int),
            None => last_index(v@, needle@) is None,
        },
        r matches Some(at) ==> at + needle@.len() <= v@.len(),
{
    let n = chars_of(needle);
    if n.len() > v.len() {
        return None;
    }
    let mut at: usize = v.len() - n.len();
    loop
        invariant
            n@ == needle@,
            at <= v.len() - n.len(),
            n.len() <= v.len(),
            last_index(v@, needle@) == last_index_to(v@, needle@, at as int),
        decreases at,
    {
        if found_at(v, &n, at) {
            return Some(at);
        }
        if at == 0 {
            assert(last_index_to(v@, needle@, -1) is None);
            return None;
        }
        at = at - 1;
    }
}

/// `s` behind its last character of `class`, or all of `s`.
pub open spec fn behind_last(s: Seq<char>, class: Class) -> Seq<char>
    decreases s.len(),
{
    if s.len() == 0 || class.has(s.last()) {
        Seq::empty()
    } else {
        behind_last(s.drop_last(), class).push(s.last())
    }
}

pub fn take_behind_last(v: &Vec<char>, class: Class) -> (r: Vec<char>)
    ensures
        r@ == behind_last(v@, class),
{
    let mut at: usize = v.len();
    assert(v@.take(at as int) == v@);
    assert(v@.skip(at as int) == Seq::<char>::empty());
    while at > 0 && !class.holds(v[at - 1])
        invariant
            at <= v.len(),
            behind_last(v@, class) == behind_last(v@.take(at as int), class) + v@.skip(at as int),
        decreases at,
    {
        proof {
            let part = v@.take(at as int);
            assert(part.last() == v@[at - 1]);
            assert(part.drop_last() == v@.take(at - 1));
            assert(behind_last(part, class) + v@.skip(at as int) == behind_last(
                v@.take(at - 1),
                class,
            ) + v@.skip(at - 1));
        }
        at = at - 1;
    }
    let r = slice(v, at, v.len());
    assert(r@ == v@.skip(at as int));
    proof {
        let part = v@.take(at as int);
        if at > 0 {
            assert(part.last() == v@[at - 1]);
        }
        assert(behind_last(part, class) == Seq::<char>::empty());
    }
    r
}

#[via_fn]
proof fn words_decreases(s: Seq<char>, class: Class) {
    lemma_without_leading(s, class);
    lemma_until(without_leading(s, class), class);
}

proof fn lemma_without_leading(s: Seq<char>, class: Class)
    ensures
        without_leading(s, class).len() <= s.len(),
        without_leading(s, class).len() > 0 ==> !class.has(without_leading(s, class)[0]),
    decreases s.len(),
{
    if s.len() > 0 && class.has(s[0]) {
        lemma_without_leading(s.drop_first(), class);
    }
}

proof fn lemma_until(s: Seq<char>, class: Class)
    ensures
        until(s, class).len() <= s.len(),
        s.len() > 0 && !class.has(s[0]) ==> until(s, class).len() > 0,
    decreases s.len(),
{
    if s.len() > 0 && !class.has(s[0]) {
        lemma_until(s.drop_first(), class);
    }
}

/// The maximal runs of characters outside `class`, in order.
pub open spec fn words(s: Seq<char>, class: Class) -> Seq<Seq<char>>
    decreases s.len(),
    via words_decreases
{
    let rest = without_leading(s, class);
    if rest.len() == 0 {
        Seq::empty()
    } else {
        seq![until(rest, class)] + words(rest.skip(until(rest, class).len() as int), class)
    }
}

pub fn split_words(v: &Vec<char>, class: Class) -> (r: Vec<Vec<char>>)
    ensures
        views(r@) == words(v@, class),
{
    let mut r: Vec<Vec<char>> = Vec::new();
    let mut rest = drop_leading(v, class);
    proof {
        lemma_without_leading(v@, class);
        lemma_leading_once(v@, class);
        assert(views(r@) + words(rest@, class) == words(rest@, class));
    }
    while rest.len() > 0
        invariant
            rest@ == without_leading(rest@, class),
            views(r@) + words(rest@, class) == words(v@, class),
        decreases rest.len(),
    {
        let word = take_until(&rest, class);
        let ghost done = views(r@);
        proof {
            lemma_without_leading(rest@, class);
            lemma_until(rest@, class);
        }
        let tail = slice(&rest, word.len(), rest.len());
        let next = drop_leading(&tail, class);
        r.push(word);
        proof {
            assert(tail@ == rest@.skip(word@.len() as int));
            lemma_without_leading(tail@, class);
            lemma_leading_once(tail@, class);
            assert(views(r@) == done.push(word@));
            assert(done + (seq![word@] + words(next@, class)) == done.push(word@) + words(
                next@,
                class,
            ));
        }
        rest = next;
    }
    assert(views(r@) + words(rest@, class) == views(r@));
    r
}

/// Dropping the leading characters first changes neither the rest nor the words.
proof fn lemma_leading_once(s: Seq<char>, class: Class)
    ensures
        without_leading(without_leading(s, class), class) == without_leading(s, class),
        words(without_leading(s, class), class) == words(s, class),
    decreases s.len(),
{
    if s.len() > 0 && class.has(s[0]) {
        lemma_leading_once(s.drop_first(), class);
    }
}

pub open spec fn is_digit(c: char) -> bool {
    '0' <= c <= '9'
}

/// The number that a sequence of decimal digits writes.
pub open spec fn digits_value(s: Seq<char>) -> int
    decreases s.len(),
{
    if s.len() == 0 {
        0
    } else {
        10 * digits_value(s.drop_last()) + (s.last() as int - '0' as int)
    }
}

pub open spec fn all_digits(s: Seq<char>) -> bool {
    s.len() > 0 && forall|i: int| 0 <= i < s.len() ==> is_digit(#[trigger] s[i])
}

/// The number that `s` writes as decimal digits, if it writes one of at most `max`.
pub open spec fn unsigned(s: Seq<char>, max: int) -> Option<int> {
    if all_digits(s) && digits_value(s) <= max {
        Some(digits_value(s))
    } else {
        None
    }
}

/// What parsing `s` as a 64-bit unsigned integer gives: decimal digits after an optional plus.
pub open spec fn parsed_u64(s: Seq<char>) -> Option<int> {
    if s.len() > 0 && s[0] == '+' {
        unsigned(s.drop_first(), u64::MAX as int)
    } else {
        unsigned(s, u64::MAX as int)
    }
}

/// What parsing `s` as a 32-bit signed integer gives: decimal digits after an optional sign.
pub open spec fn parsed_i32(s: Seq<char>) -> Option<int> {
    if s.len() > 0 && s[0] == '-' {
        match unsigned(s.drop_first(), 0x8000_0000) {
            Some(n) => Some(-n),
            None => None,
        }
    } else if s.len() > 0 && s[0] == '+' {
        unsigned(s.drop_first(), i32::MAX as int)
    } else {
        unsigned(s, i32::MAX as int)
    }
}

/// Longer digit strings write numbers that are at least as large.
proof fn lemma_digits_value_grows(s: Seq<char>, n: int)
    requires
        0 <= n <= s.len(),
        forall|i: int| 0 <= i < s.len() ==> is_digit(#[trigger] s[i]),
    ensures
        0 <= digits_value(s.take(n)) <= digits_value(s),
    decreases s.len() - n, n,
{
    if n < s.len() {
        lemma_digits_value_grows(s, n + 1);
        assert(s.take(n + 1).drop_last() == s.take(n));
        assert(is_digit(s[n]));
    } else {
        assert(s.take(n) == s);
        if n > 0 {
            assert forall|i: int| 0 <= i < s.drop_last().len() implies is_digit(
                #[trigger] s.drop_last()[i],
            ) by {
                assert(is_digit(s[i]));
            }
            lemma_digits_value_grows(s.drop_last(), n - 1);
            assert(s.drop_last().take(n - 1) == s.drop_last());
            assert(is_digit(s[n - 1]));
        }
    }
}

/// Reads decimal digits from index `from` on.
fn read_digits(v: &Vec<char>, from: usize, max: u64) -> (r: Option<u64>)
    requires
        from <= v.len(),
    ensures
        match r {
            Some(n) => unsigned(v@.skip(from as int), max as int) == Some(n as int),
            None => unsigned(v@.skip(from as int), max as int) is None,
        },
{
    let ghost s = v@.skip(from as int);
    if from == v.len() {
        return None;
    }
    let mut n: u64 = 0;
    let mut i: usize = from;
    assert(s.take(0).len() == 0);
    while i < v.len()
        invariant
            from <= i <= v.len(),
            from < v.len(),
            s == v@.skip(from as int),
            n <= max,
            n == digits_value(s.take(i - from)),
            forall|j: int| 0 <= j < i - from ==> is_digit(#[trigger] s[j]),
        decreases v.len() - i,
    {
        let c: char = v[i];
        assert(s[i - from] == c);
        if !('0' <= c && c <= '9') {
            assert(!is_digit(s[i - from]));
            return None;
        }
        let d: u64 = (c as u32 - '0' as u32) as u64;
        let ghost next = s.take(i - from + 1);
        proof {
            assert(next.drop_last() == s.take(i - from));
            assert(next.last() == c);
            if all_digits(s) {
                lemma_digits_value_grows(s, i - from + 1);
            }
        }
        if n > (u64::MAX - d) / 10 || n * 10 + d > max {
            return None;
        }
        n = n * 10 + d;
        i = i + 1;
    }
    assert(s.take(s.len() as int) == s);
    Some(n)
}

pub fn parse_u64(v: &Vec<char>) -> (r: Option<u64>)
    ensures
        match r {
            Some(n) => parsed_u64(v@) == Some(n as int),
            None => parsed_u64(v@) is None,
        },
{
    assert(v@.skip(0) == v@);
    if v.len() > 0 && v[0] == '+' {
        assert(v@.skip(1) == v@.drop_first());
        read_digits(v, 1, u64::MAX)
    } else {
        read_digits(v, 0, u64::MAX)
    }
}

pub fn parse_i32(v: &Vec<char>) -> (r: Option<i32>)
    ensures
        match r {
            Some(n) => parsed_i32(v@) == Some(n as int),
            None => parsed_i32(v@) is None,
        },
{
    assert(v@.skip(0) == v@);
    if v.len() > 0 && v[0] == '-' {
        assert(v@.skip(1) == v@.drop_first());
        match read_digits(v, 1, 0x8000_0000) {
            Some(n) => Some((-(n as i64)) as i32),
            None => None,
        }
    } else {
        let from: usize = if v.len() > 0 && v[0] == '+' {
            1
        } else {
            0
        };
        assert(from == 1 ==> v@.skip(1) == v@.drop_first());
        match read_digits(v, from, 0x7fff_ffff) {
            Some(n) => Some(n as i32),
            None => None,
        }
    }
}

/// Whether two strings hold the same text.
pub fn equal(a: &str, b: &str) -> (r: bool)
    ensures
        r == (a@ == b@),
{
    let x = chars_of(a);
    let y = chars_of(b);
    if x.len() != y.len() {
        return false;
    }
    let mut i: usize = 0;
    while i < x.len()
        invariant
            i <= x.len() == y.len(),
            x@ == a@,
            y@ == b@,
            x@.take(i as int) == y@.take(i as int),
        decreases x.len() - i,
    {
        if x[i] != y[i] {
            return false;
        }
        assert(x@.take(i + 1) == x@.take(i as int).push(x@[i as int]));
        assert(y@.take(i + 1) == y@.take(i as int).push(y@[i as int]));
        i = i + 1;
    }
    assert(x@.take(x.len() as int) == x@);
    assert(y@.take(y.len() as int) == y@);
    true
}

/// `a` followed by `b`.
pub fn joined(a: &str, b: &str) -> (r: String)
    ensures
        r@ == a@ + b@,
{
    let mut r: String = a.to_owned();
    r.append(b);
    r
}

/// The texts one after another, with `separator` between them.
pub open spec fn listed(parts: Seq<Seq<char>>, separator: Seq<char>) -> Seq<char>
    decreases parts.len(),
{
    if parts.len() == 0 {
        Seq::empty()
    } else if parts.len() == 1 {
        parts[0]
    } else {
        listed(parts.drop_last(), separator) + separator + parts.last()
    }
}

pub fn join(parts: &Vec<String>, separator: &str) -> (r: String)
    ensures
        r@ == listed(parts@.map_values(|s: String| s@), separator@),
{
    let ghost all = parts@.map_values(|s: String| s@);
    let mut r: String = String::new();
    let mut i: usize = 0;
    assert(all.take(0).len() == 0);
    while i < parts.len()
        invariant
            i <= parts.len(),
            all == parts@.map_values(|s: String| s@),
            r@ == listed(all.take(i as int), separator@),
        decreases parts.len() - i,
    {
        assert(all.take(i + 1).drop_last() == all.take(i as int));
        assert(all.take(i + 1).last() == parts@[i as int]@);
        if i > 0 {
            r.append(separator);
        } else {
            assert(all.take(1)[0] == parts@[0]@);
            assert(Seq::<char>::empty() + parts@[0]@ == parts@[0]@);
        }
        r.append(parts[i].as_str());
        i = i + 1;
    }
    assert(all.take(parts.len() as int) == all);
    r
}

} // verus!
