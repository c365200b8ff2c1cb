//! A comparison as text.

use crate::bench::compare::DiffEntry;
use crate::names::texts;
use crate::number::double::Double;
use crate::number::error::{lemma_scaled_units, near};
use crate::render::{
    align_left, align_right, copies, fixed_text, format_fixed, format_signed, left_aligned,
    repeated, right_aligned, signed_text,
};
use crate::text::{ends, stands_at, starts};
use vstd::arithmetic::power2::{lemma2_to64, lemma_pow2_adds, lemma_pow2_pos, pow2};
use vstd::prelude::*;

verus! {

/// The number 0.05 with a minus sign: a metric that improved by more than this is said to have.
pub open spec fn improvement() -> Double {
    Double { bits: 0xbfa9_9999_9999_999a }
}

/// What a row says of its metric.
pub open spec fn status_of(d: DiffEntry) -> Seq<char> {
    if d.delta_ratio.nan() {
        "—"@
    } else if d.failed {
        "FAIL"@
    } else if d.regression_ratio.less(improvement()) {
        "improved"@
    } else {
        "ok"@
    }
}

/// A value in its column.
pub open spec fn value_cell(x: Double) -> Seq<char> {
    if x.nan() {
        "       n/a"@
    } else {
        right_aligned(fixed_text(x, 1), 10)
    }
}

/// The relative change in per cent, and the direction in which the metric gets better.
pub open spec fn change_cell(d: DiffEntry) -> Seq<char> {
    if d.delta_ratio.nan() {
        "       n/a"@
    } else {
        signed_text(d.delta_ratio.times(Double::integer(100)), 1) + "% "@ + if d.higher_is_better {
            "↑"@
        } else {
            "↓"@
        }
    }
}

pub open spec fn row_text(d: DiffEntry) -> Seq<char> {
    left_aligned(d.metric@, 32) + "  "@ + value_cell(d.baseline) + "  "@ + value_cell(d.current)
        + "  "@ + right_aligned(change_cell(d), 10) + "  "@ + status_of(d)
}

pub open spec fn header_text() -> Seq<char> {
    left_aligned("metric"@, 32) + "  "@ + right_aligned("baseline"@, 10) + "  "@ + right_aligned(
        "current"@,
        10,
    ) + "  "@ + right_aligned("Δ%"@, 10) + "  result"@
}

/// A threshold in per cent.
pub open spec fn percent_text(threshold: Double) -> Seq<char> {
    fixed_text(threshold.times(Double::integer(100)), 0) + "%"@
}

pub open spec fn gating_text(on: Seq<char>, threshold: Double) -> Seq<char> {
    "Gating: --on="@ + on + " --threshold="@ + percent_text(threshold)
        + " (regression if metric got worse by > threshold; ↑ marks higher-is-better metrics)"@
}

/// The lines of the table: a header, a rule, one row for each entry, an empty line and what was
/// gated.
pub open spec fn table_text(diffs: Seq<DiffEntry>, on: Seq<char>, threshold: Double) -> Seq<
    Seq<char>,
> {
    seq![header_text(), copies('-', 76)] + diffs.map_values(|d: DiffEntry| row_text(d)) + seq![
        Seq::empty(),
        gating_text(on, threshold),
    ]
}

pub fn status(d: &DiffEntry) -> (r: &'static str)
    ensures
        r@ == status_of(*d),
{
    if d.delta_ratio.is_nan() {
        "—"
    } else if d.failed {
        "FAIL"
    } else if d.regression_ratio.lt(Double::from_bits(0xbfa9_9999_9999_999a)) {
        "improved"
    } else {
        "ok"
    }
}

fn value(x: Double) -> (r: String)
    ensures
        r@ == value_cell(x),
{
    if x.is_nan() {
        "       n/a".to_owned()
    } else {
        align_right(format_fixed(x, 1).as_str(), 10)
    }
}

fn change(d: &DiffEntry) -> (r: String)
    ensures
        r@ == change_cell(*d),
{
    if d.delta_ratio.is_nan() {
        return "       n/a".to_owned();
    }
    let mut r: String = format_signed(d.delta_ratio.mul(Double::from_u64(100)), 1);
    r.append("% ");
    if d.higher_is_better {
        r.append("↑");
    } else {
        r.append("↓");
    }
    r
}

fn row(d: &DiffEntry) -> (r: String)
    ensures
        r@ == row_text(*d),
{
    let mut r: String = align_left(d.metric.as_str(), 32);
    r.append("  ");
    r.append(value(d.baseline).as_str());
    r.append("  ");
    r.append(value(d.current).as_str());
    r.append("  ");
    r.append(align_right(change(d).as_str(), 10).as_str());
    r.append("  ");
    r.append(status(d));
    r
}

fn header() -> (r: String)
    ensures
        r@ == header_text(),
{
    let mut r: String = align_left("metric", 32);
    r.append("  ");
    r.append(align_right("baseline", 10).as_str());
    r.append("  ");
    r.append(align_right("current", 10).as_str());
    r.append("  ");
    r.append(align_right("Δ%", 10).as_str());
    r.append("  result");
    r
}

fn percent(threshold: Double) -> (r: String)
    ensures
        r@ == percent_text(threshold),
{
    let mut r: String = format_fixed(threshold.mul(Double::from_u64(100)), 0);
    r.append("%");
    r
}

fn gating(on: &str, threshold: Double) -> (r: String)
    ensures
        r@ == gating_text(on@, threshold),
{
    let mut r: String = "Gating: --on=".to_owned();
    r.append(on);
    r.append(" --threshold=");
    r.append(percent(threshold).as_str());
    r.append(
        " (regression if metric got worse by > threshold; ↑ marks higher-is-better metrics)",
    );
    r
}

/// The lines of the table that shows a comparison.
pub fn table_lines(diffs: &Vec<DiffEntry>, on: &str, threshold: Double) -> (r: Vec<String>)
    ensures
        texts(r@) == table_text(diffs@, on@, threshold),
{
    let mut r: Vec<String> = Vec::new();
    r.push(header());
    r.push(repeated('-', 76));
    let ghost head = seq![header_text(), copies('-', 76)];
    let ghost rows = diffs@.map_values(|d: DiffEntry| row_text(d));
    assert(texts(r@) =~= head + rows.take(0));
    let mut i: usize = 0;
    while i < diffs.len()
        invariant
            i <= diffs.len(),
            rows == diffs@.map_values(|d: DiffEntry| row_text(d)),
            texts(r@) == head + rows.take(i as int),
        decreases diffs.len() - i,
    {
        let ghost done = texts(r@);
        let line = row(&diffs[i]);
        r.push(line);
        proof {
            assert(texts(r@) =~= done.push(line@));
            assert(rows[i as int] == line@);
            assert(done.push(line@) =~= head + rows.take(i + 1));
        }
        i = i + 1;
    }
    let ghost done = texts(r@);
    let last = gating(on, threshold);
    r.push(String::new());
    r.push(last);
    proof {
        assert(rows.take(diffs.len() as int) =~= rows);
        assert(texts(r@) =~= done + seq![Seq::empty(), last@]);
    }
    r
}

/// What a comparison with a failure is refused with.
pub open spec fn refusal_text(on: Seq<char>, threshold: Double) -> Seq<char> {
    "regression: at least one metric exceeded the "@ + percent_text(threshold) + " threshold on "@
        + on
}

pub fn refusal(on: &str, threshold: Double) -> (r: String)
    ensures
        r@ == refusal_text(on@, threshold),
{
    let mut r: String = "regression: at least one metric exceeded the ".to_owned();
    r.append(percent(threshold).as_str());
    r.append(" threshold on ");
    r.append(on);
    r
}

/// The threshold of an improvement is the number nearest to -0.05.
pub proof fn law_improvement_is_a_twentieth()
    ensures
        improvement().finite(),
        near(-20 * improvement().value(), pow2(1074) as int, 1),
{
    let s: int = 0x19_9999_9999_999a;
    let w = pow2(1017) as int;
    lemma_scaled_units(s, 1017);
    lemma_pow2_pos(1017);
    lemma2_to64();
    lemma_pow2_adds(32, 25);
    lemma_pow2_adds(57, 1017);
    assert(improvement().magnitude() == 0x3fa9_9999_9999_999a);
    assert(1017 * 0x10_0000_0000_0000 + s == 0x3fa9_9999_9999_999aint);
    assert(improvement().value() == -(s * w));
    let u = pow2(1074) as int;
    assert(u == 0x200_0000_0000_0000 * w);
    assert(-20 * (-(s * w)) == 0x200_0000_0000_0008 * w) by (nonlinear_arith)
        requires
            s == 0x19_9999_9999_999a,
    ;
}

/// A row says `FAIL` exactly where its entry failed; otherwise `improved` where the metric got
/// better by more than a twentieth, and `ok` where it did not. A metric of one report only says
/// neither.
pub proof fn law_status_tells_the_outcome(d: DiffEntry)
    ensures
        status_of(d) == "FAIL"@ <==> !d.delta_ratio.nan() && d.failed,
        status_of(d) == "improved"@ <==> !d.delta_ratio.nan() && !d.failed
            && d.regression_ratio.less(improvement()),
        status_of(d) == "ok"@ <==> !d.delta_ratio.nan() && !d.failed && !d.regression_ratio.less(
            improvement(),
        ),
        status_of(d) == "—"@ <==> d.delta_ratio.nan(),
{
    reveal_strlit("FAIL");
    reveal_strlit("improved");
    reveal_strlit("ok");
    reveal_strlit("—");
    assert("FAIL"@.len() == 4 && "improved"@.len() == 8 && "ok"@.len() == 2 && "—"@.len() == 1);
}

/// A row holds, from left to right, the metric, the baseline, the current value, the change and the
/// outcome: the baseline begins at column 34, the current value two columns behind it, and the
/// outcome ends the row.
pub proof fn law_rows_hold_their_columns(d: DiffEntry)
    requires
        d.metric@.len() <= 32,
    ensures
        starts(row_text(d), d.metric@),
        stands_at(row_text(d), value_cell(d.baseline), 34),
        stands_at(row_text(d), value_cell(d.current), 36int + value_cell(d.baseline).len()),
        ends(row_text(d), right_aligned(change_cell(d), 10) + "  "@ + status_of(d)),
        ends(row_text(d), status_of(d)),
{
    reveal_strlit("  ");
    let (b, c) = (value_cell(d.baseline), value_cell(d.current));
    let row = row_text(d);
    let name = left_aligned(d.metric@, 32);
    let tail = right_aligned(change_cell(d), 10) + "  "@ + status_of(d);
    assert(name.len() == 32);
    assert(row =~= name + "  "@ + b + "  "@ + c + "  "@ + tail);
    assert(row.take(d.metric@.len() as int) =~= d.metric@);
    assert(row.subrange(34, 34int + b.len()) =~= b);
    let at = 36 + b.len() as int;
    assert(row.subrange(at, at + c.len()) =~= c);
    assert(row.skip(row.len() - tail.len()) =~= tail);
    assert(row.skip(row.len() - status_of(d).len()) =~= status_of(d));
}

/// A cell ends with its number, and is at least ten characters wide.
pub proof fn law_cells_hold_their_numbers(x: Double)
    ensures
        !x.nan() ==> ends(value_cell(x), fixed_text(x, 1)),
        value_cell(x).len() >= 10,
{
    reveal_strlit("       n/a");
    let t = fixed_text(x, 1);
    let c = right_aligned(t, 10);
    assert(c.skip(c.len() - t.len()) =~= t);
}

/// The change of a row is the relative change in per cent, and its arrow points up exactly where
/// larger values are better.
pub proof fn law_change_points_to_the_better(d: DiffEntry)
    requires
        !d.delta_ratio.nan(),
    ensures
        starts(change_cell(d), signed_text(d.delta_ratio.times(Double::integer(100)), 1)),
        change_cell(d).last() == '↑' <==> d.higher_is_better,
        change_cell(d).last() == '↓' <==> !d.higher_is_better,
{
    reveal_strlit("↑");
    reveal_strlit("↓");
    let t = signed_text(d.delta_ratio.times(Double::integer(100)), 1);
    assert(change_cell(d).take(t.len() as int) =~= t);
}

/// The table has a row for each entry, in the order of the entries, below its header and a rule.
pub proof fn law_table_has_a_row_for_each(
    diffs: Seq<DiffEntry>,
    on: Seq<char>,
    threshold: Double,
)
    ensures
        table_text(diffs, on, threshold).len() == diffs.len() + 4,
        forall|i: int|
            0 <= i < diffs.len() ==> table_text(diffs, on, threshold)[i + 2] == row_text(
                #[trigger] diffs[i],
            ),
{
}

} // verus!
