//! What shown numbers tell: how far the digits lie from the exact value, and which line holds what.

use crate::bench::clock::lemma_thousands;
use crate::bench::scenarios::common::lemma_quotient_near;
use crate::df::{human_text, law_human_unit, percent_used_text, report_text, DiskUsageReport};
use crate::number::double::Double;
use crate::number::error::{
    distance, law_integer_is_rounded, lemma_near_back, lemma_near_chain, lemma_near_divides,
    lemma_near_scales, lemma_value_size, lemma_within_range, near, size,
};
use crate::number::laws::{lemma_nearest_sign, lemma_units_not_negative};
use crate::number::rounding::{round_half_even, units};
use crate::render::{decimal, digit, fixed, fixed_text, law_decimal_reads_back, padded};
use crate::reserve::{human_bytes_text, law_human_bytes_unit};
use crate::text::digits_value;
use vstd::arithmetic::div_mod::lemma_fundamental_div_mod;
use vstd::arithmetic::power::{lemma_pow_positive, pow};
use vstd::arithmetic::power2::{lemma_pow2_pos, pow2};
use vstd::prelude::*;

verus! {

/// Whether a text is a number with `places` digits behind the point, and all its digits together
/// are `v`.
pub open spec fn reads_as(text: Seq<char>, v: int, places: nat) -> bool {
    if places == 0 {
        digits_value(text) == v
    } else {
        let point = text.len() - places - 1;
        &&& point > 0
        &&& text[point] == '.'
        &&& digits_value(text.take(point)) * pow(10, places) + digits_value(text.skip(point + 1))
            == v
    }
}

proof fn lemma_padded(n: nat, places: nat)
    requires
        n < pow(10, places),
    ensures
        padded(n, places).len() == places,
        digits_value(padded(n, places)) == n,
    decreases places,
{
    reveal(pow);
    if places > 0 {
        let less = (places - 1) as nat;
        assert(pow(10, places) == 10 * pow(10, less));
        lemma_padded(n / 10, less);
        let s = padded(n, places);
        assert(s.drop_last() =~= padded(n / 10, less));
        assert(s.last() == digit((n % 10) as int));
    }
}

proof fn lemma_half_even(num: int, den: int)
    requires
        num >= 0,
        den > 0,
    ensures
        round_half_even(num, den) >= 0,
        2 * distance(round_half_even(num, den) * den, num) <= den,
{
    let (q, r) = (num / den, num % den);
    lemma_fundamental_div_mod(num, den);
    assert(0 <= r < den);
    assert(q >= 0) by (nonlinear_arith)
        requires
            num == den * q + r,
            num >= 0,
            r < den,
            den > 0,
    ;
    assert(q * den == num - r) by (nonlinear_arith)
        requires
            num == den * q + r,
    ;
    assert((q + 1) * den == num - r + den) by (nonlinear_arith)
        requires
            num == den * q + r,
    ;
}

/// A number in decimal is the exact one, rounded to the digits that are shown: off by at most half
/// of the last.
pub proof fn law_fixed_is_rounded(num: int, den: int, places: nat)
    requires
        num >= 0,
        den > 0,
    ensures
        exists|v: int| #[trigger]
            reads_as(fixed(num, den, places), v, places) && v >= 0 && 2 * distance(
                v * den,
                num * pow(10, places),
            ) <= den,
{
    let t = pow(10, places);
    lemma_pow_positive(10, places);
    let x = num * t;
    assert(x >= 0) by (nonlinear_arith)
        requires
            x == num * t,
            num >= 0,
            t > 0,
    ;
    lemma_half_even(x, den);
    let v = round_half_even(x, den);
    let (a, b) = (v / t, v % t);
    lemma_fundamental_div_mod(v, t);
    assert(a >= 0) by (nonlinear_arith)
        requires
            v == t * a + b,
            v >= 0,
            b < t,
            t > 0,
    ;
    law_decimal_reads_back(a as nat);
    let text = fixed(num, den, places);
    if places > 0 {
        lemma_padded(b as nat, places);
        let whole = decimal(a as nat);
        let point = whole.len() as int;
        assert(text.take(point) =~= whole);
        assert(text.skip(point + 1) =~= padded(b as nat, places));
        assert(a * t + b == v) by (nonlinear_arith)
            requires
                v == t * a + b,
        ;
    } else {
        reveal(pow);
        assert(t == 1);
        assert(v == a) by (nonlinear_arith)
            requires
                v == t * a + b,
                0 <= b < t,
                t == 1,
        ;
    }
    assert(reads_as(text, v, places));
}

/// A number that is not negative is shown by the digits nearest to it.
proof fn lemma_shown(x: Double, places: nat) -> (v: int)
    requires
        x.finite(),
        !x.negative(),
    ensures
        reads_as(fixed_text(x, places), v, places),
        v >= 0,
        2 * distance(v * pow2(1074), x.value() * pow(10, places)) <= pow2(1074),
{
    let u = pow2(1074) as int;
    lemma_pow2_pos(1074);
    lemma_units_not_negative(x.magnitude());
    let num = units(x.magnitude(), 53);
    law_fixed_is_rounded(num, u, places);
    let text = fixed(num, u, places);
    assert(Seq::<char>::empty() + text =~= text);
    choose|v: int| #[trigger]
        reads_as(text, v, places) && v >= 0 && 2 * distance(v * u, num * pow(10, places)) <= u
}

/// What is shown of a number that is near a quotient.
proof fn lemma_shown_quotient(x: Double, n: int, d: int, k: int, places: nat) -> (v: int)
    requires
        x.finite(),
        !x.negative(),
        n >= 0,
        d > 0,
        0 <= k <= 1000,
        near(x.value() * d, n * pow2(1074), k),
    ensures
        reads_as(fixed_text(x, places), v, places),
        v >= 0,
        0x20_0000_0000_0000 * (2 * distance(v * d, n * pow(10, places)) - d) <= 2 * k * (n * pow(
            10,
            places,
        )),
{
    let c: int = 0x20_0000_0000_0000;
    let u = pow2(1074) as int;
    let t = pow(10, places);
    lemma_pow2_pos(1074);
    lemma_pow_positive(10, places);
    let v = lemma_shown(x, places);
    let y = x.value();
    let (a, b, w) = ((v * d) * u, (y * d) * t, (n * t) * u);
    let e = distance(v * u, y * t);
    assert(distance(a, b) == e * d) by (nonlinear_arith)
        requires
            a == (v * d) * u,
            b == (y * d) * t,
            e == distance(v * u, y * t),
            d > 0,
    ;
    assert(2 * (e * d) <= u * d) by (nonlinear_arith)
        requires
            2 * e <= u,
            d > 0,
    ;
    lemma_near_scales(y * d, n * u, k, t);
    assert((n * u) * t == w) by (nonlinear_arith)
        requires
            w == (n * t) * u,
    ;
    let f = distance(v * d, n * t);
    assert(distance(a, w) == f * u) by (nonlinear_arith)
        requires
            a == (v * d) * u,
            w == (n * t) * u,
            f == distance(v * d, n * t),
            u > 0,
    ;
    assert(c * (2 * (f * u)) <= c * (u * d) + 2 * (k * w));
    assert(c * (2 * f - d) <= 2 * k * (n * t)) by (nonlinear_arith)
        requires
            c * (2 * (f * u)) <= c * (u * d) + 2 * (k * w),
            w == (n * t) * u,
            u > 0,
    ;
    v
}

/// The quotient of two integers is near the exact one.
proof fn lemma_scaled_size(n: int, d: int)
    requires
        0 <= n <= u64::MAX,
        1 <= d <= u64::MAX,
    ensures
        ({
            let x = Double::integer(n).over(Double::integer(d));
            &&& x.finite()
            &&& !x.negative()
            &&& x.value() >= 0
            &&& near(x.value() * d, n * pow2(1074), 6)
            &&& x.value() <= 4 * (n * pow2(1074))
        }),
{
    let u = pow2(1074) as int;
    let w = pow2(2097) as int;
    lemma_pow2_pos(1074);
    lemma_within_range(4 * n);
    lemma_within_range(d);
    law_integer_is_rounded(n);
    law_integer_is_rounded(d);
    let (a, b) = (Double::integer(n), Double::integer(d));
    let (p, q) = (a.value(), b.value());
    let (x, y) = (n * u, d * u);
    assert(x >= 0 && y >= u) by (nonlinear_arith)
        requires
            x == n * u,
            y == d * u,
            n >= 0,
            d >= 1,
            u > 0,
    ;
    assert((4 * n) * u == 4 * x) by (nonlinear_arith)
        requires
            x == n * u,
    ;
    lemma_near_back(p, x, 1);
    lemma_near_back(q, y, 1);
    assert(2 * q >= u);
    assert(p * u <= w * q) by (nonlinear_arith)
        requires
            4 * p <= 8 * x,
            4 * x <= w,
            p >= 0,
            2 * q >= u,
            u > 0,
    ;
    if n > 0 {
        assert(x >= u) by (nonlinear_arith)
            requires
                x == n * u,
                n >= 1,
                u > 0,
        ;
        assert(y <= u64::MAX * u) by (nonlinear_arith)
            requires
                y == d * u,
                d <= u64::MAX,
                u > 0,
        ;
        assert(0x10_0000_0000_0000 * q <= p * u) by (nonlinear_arith)
            requires
                q <= 2 * (u64::MAX * u),
                2 * p >= u,
                u > 0x1_0000_0000_0000_0000_0000_0000_0000_0000,
        ;
    } else {
        assert(x == 0) by (nonlinear_arith)
            requires
                x == n * u,
                n == 0,
        ;
    }
    lemma_quotient_near(a, b);
    let r = a.over(b).value();
    let z = p * u;
    assert(z >= 0) by (nonlinear_arith)
        requires
            z == p * u,
            p >= 0,
            u > 0,
    ;
    lemma_near_back(r * q, z, 1);
    assert(r >= 0) by (nonlinear_arith)
        requires
            r * q >= 0,
            q > 0,
    ;
    lemma_near_scales(y, q, 2, r);
    assert(y * r == (r * d) * u) by (nonlinear_arith)
        requires
            y == d * u,
    ;
    assert(q * r == r * q) by (nonlinear_arith);
    lemma_near_chain((r * d) * u, r * q, z, 2, 1);
    lemma_near_divides(r * d, p, 4, u);
    lemma_near_chain(r * d, p, x, 4, 1);
    assert(r <= r * d) by (nonlinear_arith)
        requires
            r >= 0,
            d >= 1,
    ;
    let (i, j) = (units(a.magnitude(), 53), units(b.magnitude(), 53));
    lemma_value_size(a);
    lemma_value_size(b);
    lemma_nearest_sign(false, x, 1);
    lemma_nearest_sign(false, y, 1);
    assert(i * u >= 0) by (nonlinear_arith)
        requires
            i >= 0,
            u > 0,
    ;
    lemma_nearest_sign(false, i * u, j);
}

/// Whether a text is a number with `places` digits behind the point and then `suffix`, and the
/// number is `n / d`, rounded to these digits: it is off by at most half of the last digit, and `k`
/// parts in `2^52`.
pub open spec fn shows(
    text: Seq<char>,
    suffix: Seq<char>,
    n: int,
    d: int,
    places: nat,
    k: int,
) -> bool {
    exists|number: Seq<char>, v: int|
        text == number + suffix && #[trigger] reads_as(number, v, places) && v >= 0
            && 0x20_0000_0000_0000 * (2 * distance(v * d, n * pow(10, places)) - d) <= 2 * k * (n
            * pow(10, places))
}

proof fn lemma_shows(n: int, d: int, places: nat, suffix: Seq<char>)
    requires
        0 <= n <= u64::MAX,
        1 <= d <= u64::MAX,
    ensures
        shows(
            fixed_text(Double::integer(n).over(Double::integer(d)), places) + suffix,
            suffix,
            n,
            d,
            places,
            6,
        ),
{
    let x = Double::integer(n).over(Double::integer(d));
    lemma_scaled_size(n, d);
    let v = lemma_shown_quotient(x, n, d, 6, places);
    assert(reads_as(fixed_text(x, places), v, places));
}

/// A size is shown as the number of its unit that it holds, rounded to the digits shown: kibibytes
/// of 1024 bytes, mebibytes of 1024 kibibytes, and gibibytes of 1024 mebibytes.
pub proof fn law_sizes_are_shown_rounded(bytes: u64)
    ensures
        1024 <= bytes < 1048576 ==> shows(human_text(bytes), " KiB"@, bytes as int, 1024, 1, 6),
        1048576 <= bytes < 1073741824 ==> shows(
            human_text(bytes),
            " MiB"@,
            bytes as int,
            1048576,
            1,
            6,
        ),
        1073741824 <= bytes ==> shows(
            human_text(bytes),
            " GiB"@,
            bytes as int,
            1073741824,
            2,
            6,
        ),
        bytes < 1073741824 ==> shows(
            human_bytes_text(bytes),
            " MiB"@,
            bytes as int,
            1048576,
            1,
            6,
        ),
        1073741824 <= bytes ==> shows(
            human_bytes_text(bytes),
            " GiB"@,
            bytes as int,
            1073741824,
            2,
            6,
        ),
{
    law_human_unit(bytes);
    law_human_bytes_unit(bytes);
    lemma_shows(bytes as int, 1024, 1, " KiB"@);
    lemma_shows(bytes as int, 1048576, 1, " MiB"@);
    lemma_shows(bytes as int, 1073741824, 2, " GiB"@);
}

/// The share of a file system in use is a hundred times what is not free, divided by the total,
/// rounded to one digit behind the point. It is nothing where as much is free as there is.
pub proof fn law_share_is_shown_rounded(free: u64, total: u64)
    requires
        total > 0,
    ensures
        free <= total ==> shows(
            percent_used_text(free, total),
            "%"@,
            100 * (total - free),
            total as int,
            1,
            8,
        ),
        free >= total ==> shows(percent_used_text(free, total), "%"@, 0, total as int, 1, 8),
{
    let used: int = if free >= total {
        0
    } else {
        total - free
    };
    let d = total as int;
    let u = pow2(1074) as int;
    lemma_pow2_pos(1074);
    lemma_scaled_size(used, d);
    let x = Double::integer(used).over(Double::integer(d));
    let y = x.value();
    assert(4 * (used * u) <= (4 * used + 4) * u) by (nonlinear_arith)
        requires
            u > 0,
    ;
    lemma_thousands(x, 100, used);
    let s = x.times(Double::integer(100));
    lemma_near_scales(s.value(), 100 * y, 1, d);
    lemma_near_scales(y * d, used * u, 6, 100);
    assert((y * d) * 100 == (100 * y) * d) by (nonlinear_arith);
    assert((used * u) * 100 == (100 * used) * u) by (nonlinear_arith);
    assert((100 * used) * u >= 0) by (nonlinear_arith)
        requires
            used >= 0,
            u > 0,
    ;
    lemma_near_chain(s.value() * d, (100 * y) * d, (100 * used) * u, 1, 6);
    let (i, j) = (units(x.magnitude(), 53), units(Double::integer(100).magnitude(), 53));
    lemma_units_not_negative(x.magnitude());
    lemma_units_not_negative(Double::integer(100).magnitude());
    assert(i * j >= 0) by (nonlinear_arith)
        requires
            i >= 0,
            j >= 0,
    ;
    assert(100 * u >= 0);
    lemma_nearest_sign(false, 100 * u, 1);
    lemma_within_range(100);
    law_integer_is_rounded(100);
    lemma_nearest_sign(false, i * j, u);
    let v = lemma_shown_quotient(s, 100 * used, d, 8, 1);
    assert(reads_as(fixed_text(s, 1), v, 1));
}

/// Each line of a report holds the value that its label names.
pub proof fn law_lines_hold_what_they_name(r: DiskUsageReport)
    ensures
        report_text(r).len() == 16,
        report_text(r)[0] == "Host filesystem ("@ + r.host.home_dir@ + "):"@,
        report_text(r)[1] == "  total: "@ + human_text(r.host.total_bytes) + "    free: "@
            + human_text(r.host.free_bytes) + "    used: "@ + percent_used_text(
            r.host.free_bytes,
            r.host.total_bytes,
        ),
        report_text(r)[5] == "  boxes:  "@ + human_text(r.home.boxes_bytes),
        report_text(r)[6] == "  bases:  "@ + human_text(r.home.bases_bytes),
        report_text(r)[7] == "  images: "@ + human_text(r.home.images_bytes),
        report_text(r)[8] == "  other:  "@ + human_text(r.home.other_bytes),
        report_text(r)[9] == "  total:  "@ + human_text(r.home.total_bytes),
        report_text(r)[12] == "  orphan box dirs:    "@ + decimal(r.reclaimable.box_dirs_removed as nat) + " ("@
            + human_text(r.reclaimable.box_dirs_bytes) + ")"@,
        report_text(r)[13] == "  orphan bases:       "@ + decimal(r.reclaimable.bases_removed as nat) + " ("@
            + human_text(r.reclaimable.bases_bytes) + ")"@,
        report_text(r)[14] == "  orphan disk-images: "@ + decimal(r.reclaimable.disk_images_removed as nat) + " ("@
            + human_text(r.reclaimable.disk_images_bytes) + ")"@,
        report_text(r)[15] == "  total:              "@ + decimal(r.reclaimable.total_removed as nat) + " ("@
            + human_text(r.reclaimable.total_bytes) + ")"@,
{
}

} // verus!
