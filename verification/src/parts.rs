//! How texts are cut, seen from their parts: a text put together from parts is cut into them.

use crate::render::{decimal, digit, law_decimal_reads_back, left_aligned, right_aligned};
use crate::text::{
    before, behind_last, ends, is_digit, last_index, last_index_to, lines, listed, parsed_i32,
    parsed_u64, stands_at, starts, trimmed, until, without_leading, without_trailing, words, Class,
};
use vstd::prelude::*;

verus! {

/// Whether all characters of `s` are of `class`.
pub open spec fn all_of(s: Seq<char>, class: Class) -> bool {
    forall|i: int| 0 <= i < s.len() ==> class.has(#[trigger] s[i])
}

/// Whether no character of `s` is of `class`.
pub open spec fn none_of(s: Seq<char>, class: Class) -> bool {
    forall|i: int| 0 <= i < s.len() ==> !class.has(#[trigger] s[i])
}

/// Characters of the class in front of a text are dropped, up to the first of another kind.
pub proof fn law_leading_is_dropped(front: Seq<char>, s: Seq<char>, class: Class)
    requires
        all_of(front, class),
        s.len() > 0 ==> !class.has(s[0]),
    ensures
        without_leading(front + s, class) == s,
    decreases front.len(),
{
    if front.len() > 0 {
        assert((front + s).drop_first() =~= front.drop_first() + s);
        assert(class.has(front[0]));
        law_leading_is_dropped(front.drop_first(), s, class);
    } else {
        assert(front + s =~= s);
    }
}

/// Characters of the class behind a text are dropped, down to the last of another kind.
pub proof fn law_trailing_is_dropped(s: Seq<char>, back: Seq<char>, class: Class)
    requires
        all_of(back, class),
        s.len() > 0 ==> !class.has(s.last()),
    ensures
        without_trailing(s + back, class) == s,
    decreases back.len(),
{
    if back.len() > 0 {
        assert((s + back).drop_last() =~= s + back.drop_last());
        assert((s + back).last() == back[back.len() - 1]);
        law_trailing_is_dropped(s, back.drop_last(), class);
    } else {
        assert(s + back =~= s);
    }
}

/// White space round a text is dropped, and nothing else.
pub proof fn law_trimmed_is_the_core(front: Seq<char>, s: Seq<char>, back: Seq<char>)
    requires
        all_of(front, Class::Whitespace),
        all_of(back, Class::Whitespace),
        s.len() > 0 ==> !Class::Whitespace.has(s[0]) && !Class::Whitespace.has(s.last()),
    ensures
        trimmed(front + s + back) == s,
{
    let class = Class::Whitespace;
    assert(front + s + back =~= front + (s + back));
    if s.len() > 0 {
        law_leading_is_dropped(front, s + back, class);
        law_trailing_is_dropped(s, back, class);
    } else {
        let all = front + back;
        assert(front + s + back =~= all + Seq::<char>::empty());
        assert forall|i: int| 0 <= i < all.len() implies class.has(#[trigger] all[i]) by {
            if i < front.len() {
                assert(class.has(front[i]));
            } else {
                assert(class.has(back[i - front.len()]));
            }
        }
        law_leading_is_dropped(all, Seq::empty(), class);
        assert(s =~= Seq::<char>::empty());
    }
}

/// A text is cut before its first character of the class.
pub proof fn law_until_stops_at_the_class(s: Seq<char>, rest: Seq<char>, class: Class)
    requires
        none_of(s, class),
        rest.len() > 0 ==> class.has(rest[0]),
    ensures
        until(s + rest, class) == s,
    decreases s.len(),
{
    if s.len() > 0 {
        assert((s + rest).drop_first() =~= s.drop_first() + rest);
        assert(!class.has(s[0]));
        law_until_stops_at_the_class(s.drop_first(), rest, class);
        assert(seq![s[0]] + s.drop_first() =~= s);
    } else {
        assert(s + rest =~= rest);
        assert(s =~= Seq::<char>::empty());
    }
}

/// A text is cut before its first stop.
pub proof fn law_before_stops_at_the_first(s: Seq<char>, rest: Seq<char>, stop: char)
    requires
        !s.contains(stop),
        rest.len() > 0 ==> rest[0] == stop,
    ensures
        before(s + rest, stop) == s,
    decreases s.len(),
{
    if s.len() > 0 {
        let tail = s.drop_first();
        assert((s + rest).drop_first() =~= tail + rest);
        assert(s[0] != stop);
        assert(!tail.contains(stop)) by {
            if tail.contains(stop) {
                let i = choose|i: int| 0 <= i < tail.len() && tail[i] == stop;
                assert(s[i + 1] == stop);
            }
        }
        law_before_stops_at_the_first(tail, rest, stop);
        assert(seq![s[0]] + tail =~= s);
    } else {
        assert(s + rest =~= rest);
        assert(s =~= Seq::<char>::empty());
    }
}

/// A text is cut behind its last character of the class.
pub proof fn law_behind_the_last(front: Seq<char>, s: Seq<char>, class: Class)
    requires
        none_of(s, class),
        front.len() > 0 ==> class.has(front.last()),
    ensures
        behind_last(front + s, class) == s,
    decreases s.len(),
{
    if s.len() > 0 {
        assert((front + s).drop_last() =~= front + s.drop_last());
        assert((front + s).last() == s[s.len() - 1]);
        law_behind_the_last(front, s.drop_last(), class);
        assert(s.drop_last().push(s.last()) =~= s);
    } else {
        assert(front + s =~= front);
        assert(s =~= Seq::<char>::empty());
    }
}

proof fn lemma_last_index_to(s: Seq<char>, needle: Seq<char>, limit: int)
    ensures
        match last_index_to(s, needle, limit) {
            Some(at) => {
                &&& stands_at(s, needle, at)
                &&& at <= limit
                &&& forall|k: int| at < k <= limit ==> !#[trigger] stands_at(s, needle, k)
            },
            None => forall|k: int| k <= limit ==> !#[trigger] stands_at(s, needle, k),
        },
    decreases limit + 1,
{
    if limit >= 0 && !stands_at(s, needle, limit) {
        lemma_last_index_to(s, needle, limit - 1);
    }
}

/// A needle is found where it stands for the last time, and is not found exactly where it stands
/// nowhere.
pub proof fn law_last_index_is_last(s: Seq<char>, needle: Seq<char>, at: int)
    ensures
        last_index(s, needle) == Some(at) <==> stands_at(s, needle, at) && forall|k: int|
            k > at ==> !#[trigger] stands_at(s, needle, k),
        last_index(s, needle) is None <==> forall|k: int| !#[trigger] stands_at(s, needle, k),
{
    lemma_last_index_to(s, needle, s.len() - needle.len());
    if last_index(s, needle) is Some {
        let found = last_index(s, needle)->0;
        assert(stands_at(s, needle, found));
    }
}

/// A word, then white space or the end, then the rest: the word comes first, and then the words of
/// the rest. What stands in front of the first word gives none.
pub proof fn law_words_come_in_order(
    front: Seq<char>,
    word: Seq<char>,
    rest: Seq<char>,
    class: Class,
)
    requires
        all_of(front, class),
        none_of(word, class),
        word.len() > 0,
        rest.len() > 0 ==> class.has(rest[0]),
    ensures
        words(front + word + rest, class) == seq![word] + words(rest, class),
        words(front, class) == Seq::<Seq<char>>::empty(),
{
    assert(front + word + rest =~= front + (word + rest));
    assert(!class.has(word[0]));
    law_leading_is_dropped(front, word + rest, class);
    law_until_stops_at_the_class(word, rest, class);
    assert((word + rest).skip(word.len() as int) =~= rest);
    assert(front + Seq::<char>::empty() =~= front);
    law_leading_is_dropped(front, Seq::empty(), class);
}

/// A line, its end and the rest of a text: the line comes first, without its end, and then the
/// lines of the rest. A carriage return in front of the line feed belongs to the end. A last line
/// without an end is a line, and a text without characters has none.
pub proof fn law_lines_come_in_order(line: Seq<char>, rest: Seq<char>)
    requires
        !line.contains('\n'),
    ensures
        line.len() == 0 || line.last() != '\r' ==> lines(line + seq!['\n'] + rest) == seq![line]
            + lines(rest),
        lines(line + seq!['\r', '\n'] + rest) == seq![line] + lines(rest),
        line.len() > 0 ==> lines(line) == seq![line],
        lines(Seq::empty()) == Seq::<Seq<char>>::empty(),
{
    let tail = seq!['\n'] + rest;
    let s = line + seq!['\n'] + rest;
    assert(s =~= line + tail);
    law_before_stops_at_the_first(line, tail, '\n');
    assert(s.skip(line.len() as int + 1) =~= rest);
    let longer = line.push('\r');
    let t = line + seq!['\r', '\n'] + rest;
    assert(t =~= longer + tail);
    assert(!longer.contains('\n')) by {
        if longer.contains('\n') {
            let i = choose|i: int| 0 <= i < longer.len() && longer[i] == '\n';
            assert(i < line.len());
            assert(line[i] == '\n');
        }
    }
    law_before_stops_at_the_first(longer, tail, '\n');
    assert(t.skip(longer.len() as int + 1) =~= rest);
    assert(longer.drop_last() =~= line);
    assert(line + Seq::<char>::empty() =~= line);
    law_before_stops_at_the_first(line, Seq::empty(), '\n');
}

/// Texts that are joined can be told apart again: the first, the separator and the rest follow one
/// another.
pub proof fn law_joined_texts_follow(parts: Seq<Seq<char>>, separator: Seq<char>, k: int)
    requires
        0 < k < parts.len(),
    ensures
        listed(parts, separator) == listed(parts.take(k), separator) + separator + listed(
            parts.skip(k),
            separator,
        ),
        listed(seq![parts[k]], separator) == parts[k],
    decreases parts.len(),
{
    let front = parts.drop_last();
    if k == parts.len() - 1 {
        assert(parts.take(k) =~= front);
        assert(parts.skip(k) =~= seq![parts.last()]);
    } else {
        law_joined_texts_follow(front, separator, k);
        assert(front.take(k) =~= parts.take(k));
        assert(parts.skip(k).drop_last() =~= front.skip(k));
        assert(parts.skip(k).last() == parts.last());
        let (a, b) = (listed(parts.take(k), separator), listed(front.skip(k), separator));
        assert(a + separator + b + separator + parts.last() =~= a + separator + (b + separator
            + parts.last()));
    }
}

/// A number that is written in decimal digits is read back, with a plus sign or without one. What
/// is too large, is empty or holds anything but digits is no number.
pub proof fn law_numbers_are_read_back(n: nat, s: Seq<char>)
    ensures
        n <= u64::MAX ==> parsed_u64(decimal(n)) == Some(n as int) && parsed_u64(
            seq!['+'] + decimal(n),
        ) == Some(n as int),
        n > u64::MAX ==> parsed_u64(decimal(n)) is None,
        n <= i32::MAX ==> parsed_i32(decimal(n)) == Some(n as int) && parsed_i32(
            seq!['+'] + decimal(n),
        ) == Some(n as int),
        n <= 0x8000_0000 ==> parsed_i32(seq!['-'] + decimal(n)) == Some(-(n as int)),
        n > i32::MAX ==> parsed_i32(decimal(n)) is None,
        n > 0x8000_0000 ==> parsed_i32(seq!['-'] + decimal(n)) is None,
        (exists|i: int| 1 <= i < s.len() && !is_digit(#[trigger] s[i])) ==> parsed_u64(s) is None
            && parsed_i32(s) is None,
        s.len() == 0 ==> parsed_u64(s) is None && parsed_i32(s) is None,
{
    law_decimal_reads_back(n);
    let d = decimal(n);
    assert((seq!['+'] + d).drop_first() =~= d);
    assert((seq!['-'] + d).drop_first() =~= d);
    assert(is_digit(d[0]));
    if exists|i: int| 1 <= i < s.len() && !is_digit(#[trigger] s[i]) {
        let i = choose|i: int| 1 <= i < s.len() && !is_digit(#[trigger] s[i]);
        assert(s.drop_first()[i - 1] == s[i]);
    }
}

/// A number in decimal has no zero in front, unless it is zero.
pub proof fn law_no_leading_zero(n: nat)
    ensures
        n > 0 ==> decimal(n)[0] != '0',
        n == 0 ==> decimal(n) == seq!['0'],
        decimal(n).len() > 0,
    decreases n,
{
    if n >= 10 {
        law_no_leading_zero(n / 10);
        assert(decimal(n)[0] == decimal(n / 10)[0]);
    } else {
        assert(decimal(n) =~= seq![digit(n as int)]);
    }
}

/// A text is filled up with spaces on the other side to the width, and is kept as it is where it
/// is wider.
pub proof fn law_aligned_texts_are_filled(s: Seq<char>, width: int)
    ensures
        starts(left_aligned(s, width), s),
        ends(right_aligned(s, width), s),
        left_aligned(s, width).len() == if s.len() < width {
            width
        } else {
            s.len() as int
        },
        right_aligned(s, width).len() == left_aligned(s, width).len(),
        forall|i: int| s.len() <= i < width ==> #[trigger] left_aligned(s, width)[i] == ' ',
        forall|i: int| 0 <= i < width - s.len() ==> #[trigger] right_aligned(s, width)[i] == ' ',
{
    let (l, r) = (left_aligned(s, width), right_aligned(s, width));
    assert(l.take(s.len() as int) =~= s);
    assert(r.skip(r.len() - s.len()) =~= s);
}

} // verus!
