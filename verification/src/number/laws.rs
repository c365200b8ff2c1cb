//! What the arithmetic of binary64 numbers keeps: order, sign and exactness.

use super::double::Double;
use super::exact::magnitude_of;
use super::rounding::{
    lemma_large_powers, lemma_nearest_at_least, lemma_nearest_at_scale,
    lemma_round_half_even_scales, nearest_magnitude, round_half_even, scale, significand, units,
};
use vstd::arithmetic::div_mod::{
    lemma_div_is_ordered, lemma_fundamental_div_mod, lemma_fundamental_div_mod_converse,
};
use vstd::arithmetic::power2::{lemma_pow2_adds, lemma_pow2_pos, lemma_pow2_unfold, pow2};
use vstd::prelude::*;

verus! {

/// Significand and scale of a binary64 magnitude in plain numbers.
pub proof fn lemma_parts(mag: int)
    requires
        mag >= 0,
    ensures
        significand(mag, 53) == if mag < 0x20_0000_0000_0000 {
            mag
        } else {
            0x10_0000_0000_0000 + mag % 0x10_0000_0000_0000
        },
        scale(mag, 53) == if mag < 0x20_0000_0000_0000 {
            0
        } else {
            mag / 0x10_0000_0000_0000 - 1
        },
{
    lemma_large_powers();
    assert(mag / (pow2(52) as int) == mag / 0x10_0000_0000_0000);
    assert(mag % (pow2(52) as int) == mag % 0x10_0000_0000_0000);
}

proof fn lemma_units_step(mag: int)
    requires
        mag >= 0,
    ensures
        0 <= units(mag, 53) < units(mag + 1, 53),
{
    lemma_large_powers();
    lemma_parts(mag);
    lemma_parts(mag + 1);
    let k = scale(mag, 53);
    let w = pow2(k) as int;
    lemma_pow2_pos(k);
    lemma_pow2_unfold((k + 1) as nat);
    let s = significand(mag, 53);
    assert(s * w >= 0) by (nonlinear_arith)
        requires
            s >= 0,
            w > 0,
    ;
    if mag + 1 < pow2(53) {
        assert(s * w == mag && (mag + 1) * w == mag + 1) by (nonlinear_arith)
            requires
                w == 1,
                s == mag,
        ;
    } else if mag + 1 == pow2(53) {
        assert(scale(mag + 1, 53) == 1);
        lemma_pow2_unfold(1);
        assert(s * w == mag) by (nonlinear_arith)
            requires
                w == 1,
                s == mag,
        ;
    } else if significand(mag + 1, 53) == s + 1 && scale(mag + 1, 53) == k {
        assert(s * w < (s + 1) * w) by (nonlinear_arith)
            requires
                w > 0,
        ;
    } else {
        let h = pow2(52) as int;
        assert(scale(mag + 1, 53) == k + 1);
        assert(significand(mag + 1, 53) == h);
        assert(s * w < h * (2 * w)) by (nonlinear_arith)
            requires
                s == 2 * h - 1,
                w > 0,
        ;
    }
}

/// Larger magnitudes stand for larger numbers.
pub proof fn lemma_units_increase(a: int, b: int)
    requires
        0 <= a < b,
    ensures
        0 <= units(a, 53) < units(b, 53),
    decreases b - a,
{
    lemma_units_step(b - 1);
    if a < b - 1 {
        lemma_units_increase(a, b - 1);
    }
}

pub proof fn lemma_units_zero()
    ensures
        units(0, 53) == 0,
{
    lemma_large_powers();
    assert(0 * pow2(0) == 0) by (nonlinear_arith);
}

/// The order of finite numbers is that of their values, and they are equal as numbers exactly
/// when their values are.
pub proof fn law_order_is_numeric(a: Double, b: Double)
    requires
        a.finite(),
        b.finite(),
    ensures
        a.less(b) <==> a.value() < b.value(),
        a.same(b) <==> a.value() == b.value(),
{
    let x = a.magnitude();
    let y = b.magnitude();
    lemma_units_zero();
    if x > 0 {
        lemma_units_increase(0, x);
    }
    if y > 0 {
        lemma_units_increase(0, y);
    }
    if x < y {
        lemma_units_increase(x, y);
    }
    if y < x {
        lemma_units_increase(y, x);
    }
}

/// A value that the format can represent rounds to itself.
pub proof fn lemma_exact(mag: int)
    requires
        mag >= 0,
    ensures
        nearest_magnitude(units(mag, 53), 1, 53) == mag,
{
    lemma_large_powers();
    lemma_parts(mag);
    let k = scale(mag, 53);
    let s = significand(mag, 53);
    let w = pow2(k) as int;
    let num = units(mag, 53);
    lemma_pow2_pos(k);
    assert(0 <= s < pow2(53));
    assert(1 * w == w);
    assert(num < pow2(53) * (1 * w)) by (nonlinear_arith)
        requires
            num == s * w,
            s < pow2(53),
            w > 0,
    ;
    if k > 0 {
        assert(num >= pow2(52) * (1 * w)) by (nonlinear_arith)
            requires
                num == s * w,
                s >= pow2(52),
                w > 0,
        ;
    }
    lemma_nearest_at_scale(num, 1, 53, k);
    lemma_fundamental_div_mod_converse(num, w, s, 0);
    if mag < pow2(53) {
        assert(k * pow2(52) == 0) by (nonlinear_arith)
            requires
                k == 0,
        ;
    } else {
        assert(k * 0x10_0000_0000_0000 + s == mag);
    }
}

/// A common factor of numerator and denominator does not change the nearest number.
pub proof fn lemma_nearest_scales(num: int, den: int, c: int, p: nat)
    requires
        den > 0,
        c > 0,
        p > 0,
    ensures
        nearest_magnitude(num * c, den * c, p) == nearest_magnitude(num, den, p),
    decreases num - den,
{
    let h = pow2(p) as int;
    assert(den * c > 0) by (nonlinear_arith)
        requires
            den > 0,
            c > 0,
    ;
    assert(h * (den * c) == (h * den) * c) by (nonlinear_arith);
    assert(num * c < (h * den) * c <==> num < h * den) by (nonlinear_arith)
        requires
            c > 0,
    ;
    if num < h * den {
        lemma_round_half_even_scales(num, den, c);
    } else {
        lemma_pow2_unfold(p);
        lemma_pow2_pos((p - 1) as nat);
        assert(num >= 2 * den) by (nonlinear_arith)
            requires
                num >= h * den,
                h >= 2,
                den > 0,
        ;
        lemma_nearest_scales(num, 2 * den, c, p);
        assert((2 * den) * c == 2 * (den * c)) by (nonlinear_arith);
    }
}

pub proof fn lemma_nearest_not_negative(num: int, den: int, p: nat)
    requires
        num >= 0,
        den > 0,
        p > 0,
    ensures
        nearest_magnitude(num, den, p) >= 0,
    decreases num - den,
{
    lemma_pow2_unfold(p);
    lemma_pow2_pos((p - 1) as nat);
    if num < pow2(p) * den {
        assert(num / den >= 0) by (nonlinear_arith)
            requires
                num >= 0,
                den > 0,
        ;
    } else {
        assert(num >= 2 * den) by (nonlinear_arith)
            requires
                num >= pow2(p) * den,
                pow2(p) >= 2,
                den > 0,
        ;
        lemma_nearest_not_negative(num, 2 * den, p);
    }
}

/// The number that a sign and a rounded quotient make has that sign, or is a zero.
pub proof fn lemma_nearest_sign(negative: bool, num: int, den: int)
    requires
        num >= 0,
        den > 0,
    ensures
        !Double::nearest(negative, num, den).nan(),
        Double::nearest(negative, num, den).negative() == negative,
        negative ==> Double::nearest(negative, num, den).rank() <= 0,
        !negative ==> Double::nearest(negative, num, den).rank() >= 0,
{
    lemma_nearest_not_negative(num, den, 53);
}

/// The difference of finite numbers is never a NaN, and its sign tells which of them is larger.
pub proof fn law_difference_sign(a: Double, b: Double)
    requires
        a.finite(),
        b.finite(),
    ensures
        !a.minus(b).nan(),
        a.value() < b.value() ==> a.minus(b).negative(),
        a.value() >= b.value() ==> a.minus(b).rank() >= 0,
        a.value() <= b.value() ==> a.minus(b).rank() <= 0,
        a.value() == b.value() ==> a.minus(b).zero(),
{
    let n = b.negated();
    assert(n.negative() == !b.negative());
    assert(n.magnitude() == b.magnitude());
    assert(n.value() == -b.value());
    let v = a.value() - b.value();
    lemma_nearest_sign(v < 0, magnitude_of(v), 1);
}

/// Dividing by a positive finite number keeps the sign.
pub proof fn law_quotient_sign(a: Double, b: Double)
    requires
        !a.nan(),
        b.finite(),
        b.rank() > 0,
    ensures
        !a.over(b).nan(),
        a.rank() <= 0 ==> a.over(b).rank() <= 0,
        a.rank() >= 0 ==> a.over(b).rank() >= 0,
{
    lemma_units_zero();
    lemma_units_increase(0, b.magnitude());
    if a.finite() {
        if a.magnitude() > 0 {
            lemma_units_increase(0, a.magnitude());
        }
        let num = units(a.magnitude(), 53) * pow2(1074);
        assert(num >= 0) by (nonlinear_arith)
            requires
                num == units(a.magnitude(), 53) * pow2(1074),
                units(a.magnitude(), 53) >= 0,
        ;
        lemma_nearest_sign(a.negative() != b.negative(), num, units(b.magnitude(), 53));
        if a.zero() {
            lemma_large_powers();
            assert(num == 0) by (nonlinear_arith)
                requires
                    num == 0 * pow2(1074),
            ;
            let d = units(b.magnitude(), 53);
            lemma_fundamental_div_mod_converse(0, d, 0, 0);
            assert(pow2(53) * d > 0) by (nonlinear_arith)
                requires
                    pow2(53) > 0,
                    d > 0,
            ;
            assert(nearest_magnitude(0, d, 53) == 0);
        }
    }
}

/// Adding a number to negative zero gives the number back.
pub proof fn lemma_negative_zero_plus(x: Double)
    requires
        !x.nan(),
    ensures
        Double::of(true, 0).plus(x) == x,
{
    let z = Double::of(true, 0);
    lemma_units_zero();
    if x.finite() {
        if x.magnitude() > 0 {
            lemma_units_increase(0, x.magnitude());
        }
        assert(z.value() + x.value() == x.value());
        lemma_exact(x.magnitude());
    }
}

pub proof fn lemma_one()
    ensures
        Double::integer(1) == (Double { bits: 0x3ff0_0000_0000_0000 }),
        units(0x3ff0_0000_0000_0000, 53) == pow2(1074),
{
    lemma_large_powers();
    let mag = 0x3ff0_0000_0000_0000int;
    lemma_parts(mag);
    assert(scale(mag, 53) == 1022);
    assert(significand(mag, 53) == pow2(52));
    lemma_pow2_adds(52, 1022);
    lemma_exact(mag);
    assert(1 * pow2(1074) == pow2(1074));
}

/// Dividing a number by one gives the number back.
pub proof fn lemma_over_one(x: Double)
    requires
        !x.nan(),
    ensures
        x.over(Double::integer(1)) == x,
{
    lemma_one();
    if x.finite() {
        let u = units(x.magnitude(), 53);
        lemma_pow2_pos(1074);
        assert(1 * pow2(1074) == pow2(1074));
        lemma_nearest_scales(u, 1, pow2(1074) as int, 53);
        lemma_exact(x.magnitude());
    }
}

proof fn lemma_round_half_even_increases(a: int, b: int, den: int)
    requires
        0 <= a <= b,
        den > 0,
    ensures
        round_half_even(a, den) <= round_half_even(b, den),
{
    lemma_div_is_ordered(a, b, den);
    lemma_fundamental_div_mod(a, den);
    lemma_fundamental_div_mod(b, den);
}

/// Rounding to the format never swaps the order of two quotients.
pub proof fn lemma_nearest_increases(a: int, b: int, den: int, p: nat)
    requires
        0 <= a <= b,
        den > 0,
        p > 0,
    ensures
        nearest_magnitude(a, den, p) <= nearest_magnitude(b, den, p),
    decreases b - den,
{
    let h = pow2((p - 1) as nat) as int;
    lemma_pow2_unfold(p);
    lemma_pow2_pos((p - 1) as nat);
    assert(pow2(p) == 2 * h);
    let top = 2 * h * den;
    assert(2 * h * den >= 2 * den) by (nonlinear_arith)
        requires
            h >= 1,
            den > 0,
    ;
    if b < top {
        lemma_round_half_even_increases(a, b, den);
    } else if a < top {
        lemma_fundamental_div_mod(a, den);
        let q = a / den;
        assert(q < 2 * h) by (nonlinear_arith)
            requires
                a < 2 * h * den,
                a >= den * q,
                den > 0,
        ;
        lemma_large_powers();
        lemma_pow2_unfold(1);
        assert(h * (den * 2) == 2 * h * den) by (nonlinear_arith);
        lemma_nearest_at_least(b, den, p, 1);
        assert((1 + 1) * h == 2 * h);
    } else {
        lemma_nearest_increases(a, b, 2 * den, p);
    }
}

/// Every integer with at most 53 binary digits is a binary64 number.
proof fn lemma_shifted(s: int, k: nat) -> (mag: int)
    requires
        0 < s < 0x20_0000_0000_0000,
        1022 <= k <= 1074,
        s >= pow2((1074 - k) as nat),
    ensures
        0 <= mag < 0x7ff0_0000_0000_0000,
        units(mag, 53) == s * pow2(k),
    decreases k,
{
    lemma_large_powers();
    if s >= 0x10_0000_0000_0000 {
        let mag = k * 0x10_0000_0000_0000 + s;
        lemma_parts(mag);
        mag
    } else {
        lemma_pow2_unfold(k);
        lemma_pow2_unfold((1075 - k) as nat);
        assert((2 * s) * pow2((k - 1) as nat) == s * pow2(k)) by (nonlinear_arith)
            requires
                pow2(k) == 2 * pow2((k - 1) as nat),
        ;
        lemma_shifted(2 * s, (k - 1) as nat)
    }
}

/// Integers up to `2^53` are represented exactly.
pub proof fn law_integers_are_exact(n: int)
    requires
        0 <= n <= 0x20_0000_0000_0000,
    ensures
        Double::integer(n).finite(),
        Double::integer(n).value() == n * pow2(1074),
{
    lemma_large_powers();
    if n == 0 {
        lemma_units_zero();
        lemma_exact(0);
        assert(0 * pow2(1074) == 0) by (nonlinear_arith);
    } else if n == 0x20_0000_0000_0000 {
        let s: int = 0x10_0000_0000_0000;
        let mag = 1075 * 0x10_0000_0000_0000 + s;
        lemma_parts(mag);
        lemma_pow2_unfold(1075);
        assert(s * pow2(1075) == n * pow2(1074)) by (nonlinear_arith)
            requires
                pow2(1075) == 2 * pow2(1074),
                n == 2 * s,
        ;
        lemma_exact(mag);
    } else {
        let mag = lemma_shifted(n, 1074);
        lemma_exact(mag);
    }
}

/// Converting integers keeps their order, and tells them apart as long as they are exact.
pub proof fn law_integers_keep_order(a: int, b: int)
    requires
        0 <= a <= b,
    ensures
        !Double::integer(b).less(Double::integer(a)),
        a < b <= 0x20_0000_0000_0000 ==> Double::integer(a).less(Double::integer(b)),
{
    let u = pow2(1074) as int;
    lemma_pow2_pos(1074);
    assert(0 <= a * u <= b * u) by (nonlinear_arith)
        requires
            0 <= a <= b,
            u > 0,
    ;
    lemma_nearest_increases(a * u, b * u, 1, 53);
    lemma_nearest_not_negative(a * u, 1, 53);
    if a < b <= 0x20_0000_0000_0000 {
        law_integers_are_exact(a);
        law_integers_are_exact(b);
        law_order_is_numeric(Double::integer(a), Double::integer(b));
        assert(a * u < b * u) by (nonlinear_arith)
            requires
                a < b,
                u > 0,
        ;
    }
}

pub proof fn lemma_nearest_zero(den: int)
    requires
        den > 0,
    ensures
        nearest_magnitude(0, den, 53) == 0,
{
    lemma_large_powers();
    lemma_fundamental_div_mod_converse(0, den, 0, 0);
    assert(pow2(53) * den > 0) by (nonlinear_arith)
        requires
            pow2(53) > 0,
            den > 0,
    ;
}

/// Numbers of the same rank are alike.
pub proof fn lemma_same_rank(a: Double, b: Double)
    requires
        a.rank() == b.rank(),
    ensures
        a.alike(b),
{
}

/// The sign of a zero changes no sum but that of a zero.
pub proof fn lemma_alike_plus(a: Double, b: Double, x: Double, y: Double)
    requires
        a.alike(b),
        x.alike(y),
    ensures
        a.plus(x).alike(b.plus(y)),
{
    lemma_units_zero();
}

pub proof fn lemma_alike_minus(a: Double, b: Double, x: Double, y: Double)
    requires
        a.alike(b),
        x.alike(y),
    ensures
        a.minus(x).alike(b.minus(y)),
{
    assert(x.negated().alike(y.negated()));
    lemma_alike_plus(a, b, x.negated(), y.negated());
}

/// The sign of a zero changes no product but that of a zero.
pub proof fn lemma_alike_times(a: Double, b: Double, x: Double, y: Double)
    requires
        a.alike(b),
        x.alike(y),
    ensures
        a.times(x).alike(b.times(y)),
{
    lemma_units_zero();
    lemma_pow2_pos(1074);
    lemma_nearest_zero(pow2(1074) as int);
    let (u, v) = (units(a.magnitude(), 53), units(x.magnitude(), 53));
    if a.zero() || x.zero() {
        assert(u * v == 0) by (nonlinear_arith)
            requires
                u == 0 || v == 0,
        ;
    }
}

/// The sign of a zero that is divided changes no quotient but that of a zero.
pub proof fn lemma_alike_over(a: Double, b: Double, x: Double)
    requires
        a.alike(b),
    ensures
        a.over(x).alike(b.over(x)),
{
    lemma_units_zero();
    if a.zero() && x.finite() && !x.zero() {
        lemma_units_increase(0, x.magnitude());
        lemma_nearest_zero(units(x.magnitude(), 53));
        assert(0 * pow2(1074) == 0) by (nonlinear_arith);
    }
}

pub proof fn lemma_units_not_negative(mag: int)
    requires
        mag >= 0,
    ensures
        units(mag, 53) >= 0,
{
    lemma_units_zero();
    if mag > 0 {
        lemma_units_increase(0, mag);
    }
}

/// The sum of numbers that are not negative is one.
pub proof fn lemma_plus_keeps_sign(a: Double, b: Double)
    requires
        !a.nan() && a.rank() >= 0,
        !b.nan() && b.rank() >= 0,
    ensures
        !a.plus(b).nan() && a.plus(b).rank() >= 0,
{
    lemma_units_zero();
    lemma_units_not_negative(a.magnitude());
    lemma_units_not_negative(b.magnitude());
    let v = a.value() + b.value();
    lemma_nearest_sign(v < 0, magnitude_of(v), 1);
}

/// The product of a number that is not negative with a positive finite one is not negative.
pub proof fn lemma_times_keeps_sign(a: Double, b: Double)
    requires
        !a.nan() && a.rank() >= 0,
        b.finite() && b.rank() > 0,
    ensures
        !a.times(b).nan() && a.times(b).rank() >= 0,
{
    lemma_units_not_negative(a.magnitude());
    lemma_units_not_negative(b.magnitude());
    lemma_pow2_pos(1074);
    let (u, v) = (units(a.magnitude(), 53), units(b.magnitude(), 53));
    if a.finite() {
        assert(u * v >= 0) by (nonlinear_arith)
            requires
                u >= 0,
                v >= 0,
        ;
        lemma_nearest_sign(a.negative() != b.negative(), u * v, pow2(1074) as int);
        lemma_nearest_zero(pow2(1074) as int);
        if a.zero() {
            lemma_units_zero();
            assert(u * v == 0) by (nonlinear_arith)
                requires
                    u == 0,
            ;
        }
    }
}

} // verus!
