//! The rate that `dd` reports.
//!
//! GNU `dd` ends its summary with a line such as
//! `67108864 bytes (67 MB, 64 MiB) copied, 0.123 s, 545 MB/s`, busybox with one such as
//! `67108864 bytes (64.0MB) copied, 0.123 seconds, 540.0MB/s`. The last line with a unit gives the
//! result. Where the text in front of the unit is not a number, the output is refused as a whole.

use crate::number::double::Double;
use crate::number::error::{
    distance, law_product_is_rounded, lemma_scaled_units, lemma_value_size, size,
};
use crate::number::laws::{
    law_integers_are_exact, lemma_exact, lemma_nearest_scales, lemma_one, lemma_units_zero,
};
use crate::number::rounding::{lemma_large_powers, units};
use crate::parts::{
    all_of, law_behind_the_last, law_last_index_is_last, law_trailing_is_dropped, none_of,
};
use crate::text::{
    behind_last, chars_of, drop_trailing, find_last, last_index, lines, slice, split_lines,
    stands_at, string_of, take_behind_last, views, without_trailing, Class,
};
use vstd::arithmetic::power2::{lemma2_to64, lemma_pow2_adds, lemma_pow2_pos, pow2};
use vstd::prelude::*;

verus! {

/// The unit of a rate.
#[derive(Clone, Copy, Debug, PartialEq, Eq, Structural)]
pub enum RateUnit {
    Mega,
    Giga,
    Kilo,
}

impl RateUnit {
    /// What a rate in this unit is multiplied by to be one in megabytes per second.
    pub open spec fn factor(self) -> Double {
        match self {
            RateUnit::Mega => Double::integer(1),
            RateUnit::Giga => Double::integer(1024),
            RateUnit::Kilo => Double::integer(1).over(Double::integer(1024)),
        }
    }

    fn multiplier(self) -> (r: Double)
        ensures
            r == self.factor(),
    {
        match self {
            RateUnit::Mega => Double::from_u64(1),
            RateUnit::Giga => Double::from_u64(1024),
            RateUnit::Kilo => Double::from_u64(1).div(Double::from_u64(1024)),
        }
    }
}

/// What a line gives as its rate: a text that may be a number, and its unit.
#[derive(Debug)]
pub struct DdRate {
    pub number: String,
    pub unit: RateUnit,
}

/// The unit in a line, and where it stands.
pub open spec fn unit_in(line: Seq<char>) -> Option<(int, RateUnit)> {
    match (last_index(line, "MB/s"@), last_index(line, "GB/s"@), last_index(line, "kB/s"@)) {
        (Some(at), _, _) => Some((at, RateUnit::Mega)),
        (_, Some(at), _) => Some((at, RateUnit::Giga)),
        (_, _, Some(at)) => Some((at, RateUnit::Kilo)),
        _ => None,
    }
}

/// The text in front of a unit: what follows the last blank or comma before it.
pub open spec fn number_before(line: Seq<char>, at: int) -> Seq<char> {
    behind_last(without_trailing(line.take(at), Class::Whitespace), Class::WhitespaceOrComma)
}

/// What a line gives as its rate.
pub open spec fn rate_in(line: Seq<char>) -> Option<(Seq<char>, RateUnit)> {
    match unit_in(line) {
        Some((at, unit)) => Some((number_before(line, at), unit)),
        None => None,
    }
}

/// The rate of the last line that has one.
pub open spec fn last_rate(lines: Seq<Seq<char>>) -> Option<(Seq<char>, RateUnit)>
    decreases lines.len(),
{
    if lines.len() == 0 {
        None
    } else {
        match rate_in(lines.last()) {
            Some(rate) => Some(rate),
            None => last_rate(lines.drop_last()),
        }
    }
}

fn read_rate(line: &Vec<char>) -> (r: Option<DdRate>)
    ensures
        match r {
            Some(rate) => rate_in(line@) == Some((rate.number@, rate.unit)),
            None => rate_in(line@) is None,
        },
{
    let mega = find_last(line, "MB/s");
    let giga = find_last(line, "GB/s");
    let kilo = find_last(line, "kB/s");
    let (at, unit): (usize, RateUnit) = match (mega, giga, kilo) {
        (Some(at), _, _) => (at, RateUnit::Mega),
        (_, Some(at), _) => (at, RateUnit::Giga),
        (_, _, Some(at)) => (at, RateUnit::Kilo),
        _ => {
            return None;
        },
    };
    let head = slice(line, 0, at);
    assert(head@ == line@.take(at as int));
    let head = drop_trailing(&head, Class::Whitespace);
    let number = take_behind_last(&head, Class::WhitespaceOrComma);
    Some(DdRate { number: string_of(&number), unit })
}

/// The rate that the output of `dd` gives: that of the last line with a unit. Earlier lines are
/// not looked at, whether or not the text of the rate is a number.
pub fn dd_rate(text: &str) -> (r: Option<DdRate>)
    ensures
        match r {
            Some(rate) => last_rate(lines(text@)) == Some((rate.number@, rate.unit)),
            None => last_rate(lines(text@)) is None,
        },
{
    let chars = chars_of(text);
    let all = split_lines(&chars);
    let ghost list = views(all@);
    let mut n: usize = all.len();
    assert(list.take(n as int) == list);
    while n > 0
        invariant
            n <= all.len(),
            list == views(all@),
            list == lines(text@),
            last_rate(list) == last_rate(list.take(n as int)),
        decreases n,
    {
        let ghost part = list.take(n as int);
        n = n - 1;
        proof {
            assert(part.last() == all@[n as int]@);
            assert(part.drop_last() == list.take(n as int));
        }
        if let Some(rate) = read_rate(&all[n]) {
            return Some(rate);
        }
    }
    None
}

/// A rate in megabytes per second, where its text is a number.
pub open spec fn reported_rate(unit: RateUnit, number: Option<Double>) -> Option<Double> {
    match number {
        Some(x) => Some(x.times(unit.factor())),
        None => None,
    }
}

/// The rate in megabytes per second. `number` is what the text of the rate is as a number; where
/// it is none, there is no rate, not even zero.
pub fn dd_mb_per_sec(rate: &DdRate, number: Option<Double>) -> (r: Option<Double>)
    ensures
        r == reported_rate(rate.unit, number),
{
    match number {
        Some(x) => Some(x.mul(rate.unit.multiplier())),
        None => None,
    }
}

/// What the output of `dd` comes to, in megabytes per second, where `read` says which texts are
/// numbers.
pub open spec fn dd_result(
    lines: Seq<Seq<char>>,
    read: spec_fn(Seq<char>) -> Option<Double>,
) -> Option<Double> {
    match last_rate(lines) {
        Some((number, unit)) => reported_rate(unit, read(number)),
        None => None,
    }
}

/// The last line with a unit alone decides: what it gives is the result, and where the text of
/// its rate is not a number there is none, whatever the lines before it hold.
pub proof fn law_last_unit_decides(
    lines: Seq<Seq<char>>,
    read: spec_fn(Seq<char>) -> Option<Double>,
    i: int,
)
    requires
        0 <= i < lines.len(),
        rate_in(lines[i]) is Some,
        forall|j: int| i < j < lines.len() ==> rate_in(#[trigger] lines[j]) is None,
    ensures
        last_rate(lines) == rate_in(lines[i]),
        dd_result(lines, read) is Some <==> read(rate_in(lines[i])->Some_0.0) is Some,
    decreases lines.len(),
{
    if i < lines.len() - 1 {
        let front = lines.drop_last();
        assert forall|j: int| i < j < front.len() implies rate_in(#[trigger] front[j]) is None by {
            assert(front[j] == lines[j]);
        }
        law_last_unit_decides(front, read, i);
    }
}

/// An output without a unit has no rate.
pub proof fn law_no_unit_no_rate(
    lines: Seq<Seq<char>>,
    read: spec_fn(Seq<char>) -> Option<Double>,
)
    requires
        forall|j: int| 0 <= j < lines.len() ==> rate_in(#[trigger] lines[j]) is None,
    ensures
        last_rate(lines) is None,
        dd_result(lines, read) is None,
    decreases lines.len(),
{
    if lines.len() > 0 {
        let front = lines.drop_last();
        assert forall|j: int| 0 <= j < front.len() implies rate_in(#[trigger] front[j]) is None by {
            assert(front[j] == lines[j]);
        }
        law_no_unit_no_rate(front, read);
    }
}

/// Whether `needle` stands nowhere in `s` behind index `at`.
pub open spec fn not_behind(s: Seq<char>, needle: Seq<char>, at: int) -> bool {
    forall|k: int| k > at ==> !#[trigger] stands_at(s, needle, k)
}

/// The rate of a line is the word in front of its last unit, between a blank or a comma and the
/// unit, with or without blanks before the unit. A line that names several units goes by
/// megabytes first, then gigabytes, then kilobytes.
pub proof fn law_rate_is_the_word_before_the_unit(
    front: Seq<char>,
    word: Seq<char>,
    blanks: Seq<char>,
    back: Seq<char>,
)
    requires
        front.len() > 0 ==> Class::WhitespaceOrComma.has(front.last()),
        word.len() > 0,
        none_of(word, Class::WhitespaceOrComma),
        all_of(blanks, Class::Whitespace),
    ensures
        ({
            let line = front + word + blanks + "MB/s"@ + back;
            not_behind(line, "MB/s"@, (front + word + blanks).len() as int) ==> rate_in(line)
                == Some((word, RateUnit::Mega))
        }),
        ({
            let line = front + word + blanks + "GB/s"@ + back;
            not_behind(line, "GB/s"@, (front + word + blanks).len() as int) && not_behind(
                line,
                "MB/s"@,
                -1,
            ) ==> rate_in(line) == Some((word, RateUnit::Giga))
        }),
        ({
            let line = front + word + blanks + "kB/s"@ + back;
            not_behind(line, "kB/s"@, (front + word + blanks).len() as int) && not_behind(
                line,
                "MB/s"@,
                -1,
            ) && not_behind(line, "GB/s"@, -1) ==> rate_in(line) == Some((word, RateUnit::Kilo))
        }),
{
    let head = front + word + blanks;
    let at = head.len() as int;
    lemma_word_before(front, word, blanks, "MB/s"@, back);
    lemma_word_before(front, word, blanks, "GB/s"@, back);
    lemma_word_before(front, word, blanks, "kB/s"@, back);
    let mega = head + "MB/s"@ + back;
    law_last_index_is_last(mega, "MB/s"@, at);
    let giga = head + "GB/s"@ + back;
    law_last_index_is_last(giga, "GB/s"@, at);
    law_last_index_is_last(giga, "MB/s"@, at);
    let kilo = head + "kB/s"@ + back;
    law_last_index_is_last(kilo, "kB/s"@, at);
    law_last_index_is_last(kilo, "MB/s"@, at);
    law_last_index_is_last(kilo, "GB/s"@, at);
}

proof fn lemma_word_before(
    front: Seq<char>,
    word: Seq<char>,
    blanks: Seq<char>,
    unit: Seq<char>,
    back: Seq<char>,
)
    requires
        front.len() > 0 ==> Class::WhitespaceOrComma.has(front.last()),
        word.len() > 0,
        none_of(word, Class::WhitespaceOrComma),
        all_of(blanks, Class::Whitespace),
    ensures
        ({
            let line = front + word + blanks + unit + back;
            let at = (front + word + blanks).len() as int;
            &&& stands_at(line, unit, at)
            &&& number_before(line, at) == word
        }),
{
    let line = front + word + blanks + unit + back;
    let at = (front + word + blanks).len() as int;
    assert(line.subrange(at, at + unit.len()) =~= unit);
    assert(line.take(at) =~= (front + word) + blanks);
    assert(!Class::WhitespaceOrComma.has(word[word.len() - 1]));
    assert((front + word).last() == word[word.len() - 1]);
    law_trailing_is_dropped(front + word, blanks, Class::Whitespace);
    law_behind_the_last(front, word, Class::WhitespaceOrComma);
}

/// A megabyte is 1024 kilobytes, and a gigabyte 1024 megabytes.
pub proof fn law_units_are_binary()
    ensures
        RateUnit::Mega.factor().finite(),
        RateUnit::Giga.factor().finite(),
        RateUnit::Kilo.factor().finite(),
        RateUnit::Mega.factor().value() == pow2(1074),
        RateUnit::Giga.factor().value() == 1024 * RateUnit::Mega.factor().value(),
        RateUnit::Mega.factor().value() == 1024 * RateUnit::Kilo.factor().value(),
{
    let u = pow2(1074) as int;
    lemma_pow2_pos(1074);
    law_integers_are_exact(1);
    law_integers_are_exact(1024);
    lemma_one();
    let (one, k) = (Double::integer(1), Double::integer(1024));
    let h: int = 0x10_0000_0000_0000;
    lemma_large_powers();
    lemma_scaled_units(h, 1012);
    let mag = 1012 * h + h;
    lemma_exact(mag);
    lemma_pow2_adds(52, 1012);
    lemma_pow2_adds(1064, 10);
    lemma2_to64();
    let v = pow2(1064) as int;
    let c = 1024 * u;
    assert(c > 0);
    lemma_nearest_scales(v, 1, c, 53);
    assert(v * c == u * u) by (nonlinear_arith)
        requires
            c == 1024 * u,
            u == v * 1024,
    ;
    assert(1 * c == c);
    assert(units(one.magnitude(), 53) == u);
    assert(k.value() == 1024 * u);
    lemma_value_size(k);
    assert(one.over(k) == Double::of(false, mag));
    lemma_units_zero();
}

/// A rate in megabytes is the number in front of its unit; one in gigabytes is 1024 times that
/// number, and one in kilobytes a 1024th of it, each rounded once.
pub proof fn law_rates_are_converted(x: Double)
    requires
        x.finite(),
        1024 * size(x.value()) <= pow2(2097),
    ensures
        reported_rate(RateUnit::Mega, Some(x)) == Some(x),
        reported_rate(RateUnit::Giga, Some(x)) matches Some(r) && r.finite() && 0x20_0000_0000_0000
            * distance(r.value(), 1024 * x.value()) <= 1024 * size(x.value()),
        reported_rate(RateUnit::Kilo, Some(x)) matches Some(r) && r.finite() && (
        0x20_0000_0000_0000 * distance(1024 * r.value(), x.value()) <= size(x.value()) || distance(
            1024 * r.value(),
            x.value(),
        ) <= 512),
        reported_rate(RateUnit::Mega, None) is None,
        reported_rate(RateUnit::Giga, None) is None,
        reported_rate(RateUnit::Kilo, None) is None,
{
    let u = pow2(1074) as int;
    let w = pow2(2097) as int;
    let y = x.value();
    lemma_pow2_pos(1074);
    law_units_are_binary();
    lemma_one();
    lemma_value_size(x);
    lemma_nearest_scales(units(x.magnitude(), 53), 1, u, 53);
    assert(1 * u == u);
    lemma_exact(x.magnitude());
    let giga = RateUnit::Giga.factor();
    assert(size(y) * (1024 * u) <= w * u) by (nonlinear_arith)
        requires
            1024 * size(y) <= w,
            u > 0,
    ;
    law_product_is_rounded(x, giga);
    let r = x.times(giga).value();
    let e = distance(r, 1024 * y);
    assert(y * (1024 * u) == (1024 * y) * u) by (nonlinear_arith);
    lemma_scaled_distance(r, 1024 * y, u);
    assert(size(y) * (1024 * u) == (1024 * size(y)) * u) by (nonlinear_arith);
    if 0x20_0000_0000_0000 * (e * u) <= (1024 * size(y)) * u {
        assert(0x20_0000_0000_0000 * e <= 1024 * size(y)) by (nonlinear_arith)
            requires
                0x20_0000_0000_0000 * (e * u) <= (1024 * size(y)) * u,
                u > 0,
        ;
    } else {
        assert(e == 0) by (nonlinear_arith)
            requires
                2 * (e * u) <= u,
                u > 0,
                e >= 0,
        ;
    }
    let kilo = RateUnit::Kilo.factor();
    let f = kilo.value();
    assert(f > 0);
    assert(size(y) * f <= w * u) by (nonlinear_arith)
        requires
            1024 * size(y) <= w,
            u == 1024 * f,
            f > 0,
            size(y) >= 0,
    ;
    law_product_is_rounded(x, kilo);
    let q = x.times(kilo).value();
    let d = distance(1024 * q, y);
    assert(q * u == (1024 * q) * f) by (nonlinear_arith)
        requires
            u == 1024 * f,
    ;
    lemma_scaled_distance(1024 * q, y, f);
    if 0x20_0000_0000_0000 * (d * f) <= size(y) * f {
        assert(0x20_0000_0000_0000 * d <= size(y)) by (nonlinear_arith)
            requires
                0x20_0000_0000_0000 * (d * f) <= size(y) * f,
                f > 0,
        ;
    } else {
        assert(d <= 512) by (nonlinear_arith)
            requires
                2 * (d * f) <= 1024 * f,
                f > 0,
        ;
    }
}

proof fn lemma_scaled_distance(a: int, b: int, u: int)
    requires
        u > 0,
    ensures
        distance(a * u, b * u) == distance(a, b) * u,
{
    assert(a * u - b * u == (a - b) * u) by (nonlinear_arith);
    assert(b * u - a * u == (b - a) * u) by (nonlinear_arith);
    assert((a < b) == (a * u < b * u)) by (nonlinear_arith)
        requires
            u > 0,
    ;
}

} // verus!
