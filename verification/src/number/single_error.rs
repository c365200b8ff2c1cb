//! How far results of single-precision arithmetic lie from the exact ones.

use super::error::{distance, lemma_nearest_error, lemma_nearest_finite, lemma_signed, size};
use super::exact::at_most_infinity;
use super::rounding::{
    lemma_nearest_at_least_significand, nearest_magnitude, scale, significand, units,
};
use super::single::{Single, SINGLE_INFINITY};
use vstd::arithmetic::div_mod::lemma_fundamental_div_mod;
use vstd::arithmetic::power2::{
    lemma2_to64, lemma_pow2_adds, lemma_pow2_pos, lemma_pow2_strictly_increases, lemma_pow2_unfold,
    pow2,
};
use vstd::prelude::*;

verus! {

/// Whether a single-precision number is neither infinite nor a NaN.
pub open spec fn single_finite(x: Single) -> bool {
    x.magnitude() < SINGLE_INFINITY
}

/// Significand and scale of a binary32 magnitude in plain numbers.
proof fn lemma_single_parts(mag: int)
    requires
        mag >= 0,
    ensures
        significand(mag, 24) == if mag < 0x100_0000 {
            mag
        } else {
            0x80_0000 + mag % 0x80_0000
        },
        scale(mag, 24) == if mag < 0x100_0000 {
            0
        } else {
            mag / 0x80_0000 - 1
        },
{
    lemma2_to64();
    assert(mag / (pow2(23) as int) == mag / 0x80_0000);
    assert(mag % (pow2(23) as int) == mag % 0x80_0000);
}

proof fn lemma_single_units_small(mag: int)
    requires
        0 <= mag <= 0x100_0000,
    ensures
        units(mag, 24) == mag,
{
    lemma2_to64();
    lemma_single_parts(mag);
    if mag < 0x100_0000 {
        assert(mag * pow2(0) == mag) by (nonlinear_arith)
            requires
                pow2(0) == 1,
        ;
    } else {
        assert(0x80_0000 * pow2(1) == 0x100_0000) by (nonlinear_arith)
            requires
                pow2(1) == 2,
        ;
    }
}

proof fn lemma_single_units_double(mag: int)
    requires
        mag >= 0x80_0000,
    ensures
        units(mag + 0x80_0000, 24) == 2 * units(mag, 24),
{
    lemma2_to64();
    lemma_single_parts(mag);
    lemma_single_parts(mag + 0x80_0000);
    if mag < 0x100_0000 {
        lemma_single_units_small(mag);
        assert(mag * pow2(1) == 2 * mag) by (nonlinear_arith)
            requires
                pow2(1) == 2,
        ;
    } else {
        let k = (mag / 0x80_0000 - 1) as nat;
        let s = 0x80_0000 + mag % 0x80_0000;
        lemma_pow2_unfold((k + 1) as nat);
        assert(s * (2 * pow2(k)) == 2 * (s * pow2(k))) by (nonlinear_arith);
    }
}

/// Rounding `num / den` moves it by at most one part in `2^24`, or by at most half a unit.
pub proof fn lemma_single_nearest_error(num: int, den: int)
    requires
        num >= 0,
        den > 0,
    ensures
        ({
            let e = distance(units(nearest_magnitude(num, den, 24), 24) * den, num);
            0x100_0000 * e <= num || 2 * e <= den
        }),
    decreases num - den,
{
    lemma2_to64();
    let h: int = 0x80_0000;
    assert(pow2(24) * den == (2 * h) * den);
    let m = nearest_magnitude(num, den, 24);
    if num < pow2(24) * den {
        let q = num / den;
        lemma_fundamental_div_mod(num, den);
        assert(0 <= q < 2 * h) by (nonlinear_arith)
            requires
                0 <= num < (2 * h) * den,
                num == den * q + num % den,
                0 <= num % den < den,
                den > 0,
        ;
        lemma_single_units_small(m);
        assert(q * den == den * q) by (nonlinear_arith);
        assert((q + 1) * den == den * q + den) by (nonlinear_arith);
    } else {
        assert(num >= h * (2 * den) && num >= 2 * den) by (nonlinear_arith)
            requires
                num >= (2 * h) * den,
                h > 0,
                den > 0,
        ;
        let n = nearest_magnitude(num, 2 * den, 24);
        lemma_nearest_at_least_significand(num, 2 * den, 24);
        lemma_single_nearest_error(num, 2 * den);
        lemma_single_units_double(n);
        let u = units(n, 24);
        assert((2 * u) * den == u * (2 * den)) by (nonlinear_arith);
        let e = distance(u * (2 * den), num);
        if 2 * e <= 2 * den {
            assert((2 * h) * e <= num) by (nonlinear_arith)
                requires
                    e <= den,
                    num >= h * (2 * den),
                    h > 0,
            ;
        }
    }
}

/// Quotients below `2^(24 + k)` units have magnitudes of at most `k + 2` powers of two.
proof fn lemma_single_nearest_at_most(num: int, den: int, k: nat)
    requires
        den > 0,
        0 <= num < pow2(24 + k) * den,
    ensures
        0 <= nearest_magnitude(num, den, 24) <= (k + 2) * 0x80_0000,
    decreases k,
{
    lemma2_to64();
    let h: int = 0x80_0000;
    if num < pow2(24) * den {
        let q = num / den;
        lemma_fundamental_div_mod(num, den);
        assert(0 <= q < 2 * h) by (nonlinear_arith)
            requires
                0 <= num < (2 * h) * den,
                num == den * q + num % den,
                0 <= num % den < den,
                den > 0,
        ;
        assert((k + 2) * h >= 2 * h) by (nonlinear_arith)
            requires
                h > 0,
        ;
    } else {
        if k == 0 {
            assert(false);
        }
        let l = (k - 1) as nat;
        lemma_pow2_unfold(24 + k);
        let w = pow2(24 + l) as int;
        assert(pow2(24 + k) == 2 * w);
        assert((2 * w) * den == w * (2 * den)) by (nonlinear_arith);
        lemma_single_nearest_at_most(num, 2 * den, l);
        assert((l + 2) * h + h == (k + 2) * h) by (nonlinear_arith)
            requires
                l == k - 1,
        ;
    }
}

/// A result of rounding that is far from the largest finite number.
proof fn lemma_single_result(negative: bool, num: int, den: int)
    requires
        den > 0,
        0 <= num < pow2(276) * den,
    ensures
        ({
            let x = Single::nearest(negative, num, den);
            let q = units(nearest_magnitude(num, den, 24), 24);
            &&& single_finite(x)
            &&& x.value() == if negative {
                -q
            } else {
                q
            }
            &&& q >= 0
        }),
{
    lemma_single_nearest_at_most(num, den, 252);
    let m = nearest_magnitude(num, den, 24);
    assert(0 <= m < SINGLE_INFINITY);
    assert(at_most_infinity(m, SINGLE_INFINITY) == m);
    assert(Single::of(negative, m).magnitude() == m);
    lemma_single_units_not_negative(m);
}

pub proof fn lemma_single_units_not_negative(mag: int)
    requires
        mag >= 0,
    ensures
        units(mag, 24) >= 0,
        mag == 0 ==> units(mag, 24) == 0,
        units(mag, 24) == 0 ==> mag == 0,
{
    lemma_single_parts(mag);
    let (s, w) = (significand(mag, 24), pow2(scale(mag, 24)) as int);
    lemma_pow2_pos(scale(mag, 24));
    assert(s * w >= 0 && (s == 0 ==> s * w == 0) && (s > 0 ==> s * w > 0)) by (nonlinear_arith)
        requires
            s >= 0,
            w > 0,
    ;
}

/// A sum of single-precision numbers is the exact one, rounded once.
pub proof fn law_single_sum_is_rounded(a: Single, b: Single)
    requires
        single_finite(a),
        single_finite(b),
        size(a.value() + b.value()) < pow2(276),
    ensures
        single_finite(a.plus(b)),
        0x100_0000 * distance(a.plus(b).value(), a.value() + b.value()) <= size(
            a.value() + b.value(),
        ),
{
    let x = a.value() + b.value();
    assert(pow2(276) * 1 == pow2(276));
    lemma_single_units_not_negative(0);
    if x != 0 {
        lemma_single_result(x < 0, size(x), 1);
        lemma_single_nearest_error(size(x), 1);
        let q = units(nearest_magnitude(size(x), 1, 24), 24);
        assert(q * 1 == q);
    }
}

/// A count is the exact one, rounded once.
pub proof fn law_single_integer_is_rounded(n: nat)
    requires
        0 < n <= 0x80_0000,
    ensures
        single_finite(Single::integer(n)),
        Single::integer(n).value() > 0,
        0x100_0000 * distance(Single::integer(n).value(), n as int * pow2(149)) <= n * pow2(
            149,
        ),
{
    let w = pow2(149) as int;
    let x = n * w;
    lemma2_to64();
    lemma_pow2_pos(149);
    lemma_pow2_adds(23, 149);
    lemma_pow2_strictly_increases(172, 276);
    assert(0 < x <= pow2(172)) by (nonlinear_arith)
        requires
            x == n * w,
            0 < n <= pow2(23),
            w > 0,
            pow2(172) == pow2(23) * w,
    ;
    assert(pow2(276) * 1 == pow2(276));
    lemma_single_result(false, x, 1);
    lemma_single_nearest_error(x, 1);
    let q = units(nearest_magnitude(x, 1, 24), 24);
    assert(q * 1 == q);
}

/// A quotient by a positive number is the exact one, rounded once.
pub proof fn law_single_quotient_is_rounded(a: Single, b: Single)
    requires
        single_finite(a),
        single_finite(b),
        b.value() > 0,
        size(a.value()) * pow2(149) < pow2(276) * b.value(),
    ensures
        single_finite(a.over(b)),
        ({
            let e = distance(a.over(b).value() * b.value(), a.value() * pow2(149));
            0x100_0000 * e <= size(a.value()) * pow2(149) || 2 * e <= b.value()
        }),
{
    let w = pow2(149) as int;
    lemma_pow2_pos(149);
    let (x, y) = (a.value(), b.value());
    lemma_single_units_not_negative(a.magnitude());
    lemma_single_units_not_negative(b.magnitude());
    assert(!b.negative() && !b.zero());
    assert(units(a.magnitude(), 24) == size(x));
    let num = size(x) * w;
    assert(num >= 0) by (nonlinear_arith)
        requires
            num == size(x) * w,
            size(x) >= 0,
            w > 0,
    ;
    lemma_single_result(a.negative(), num, y);
    lemma_single_nearest_error(num, y);
    let q = units(nearest_magnitude(num, y, 24), 24);
    let v = a.over(b).value();
    assert((-q) * y == -(q * y)) by (nonlinear_arith);
    assert((-x) * w == -(x * w)) by (nonlinear_arith);
    if x == 0 {
        assert(num == 0) by (nonlinear_arith)
            requires
                num == 0 * w,
        ;
        assert(x * w == 0) by (nonlinear_arith)
            requires
                x == 0,
        ;
    }
}

/// In double precision a number stays what it is, but for one part in `2^53`.
pub proof fn law_widening_is_rounded(x: Single)
    requires
        single_finite(x),
        size(x.value()) <= pow2(276),
    ensures
        x.widened().finite(),
        0x20_0000_0000_0000 * distance(x.widened().value(), x.value() * pow2(925)) <= size(x.value())
            * pow2(925),
{
    let w = pow2(925) as int;
    lemma_pow2_pos(925);
    lemma_single_units_not_negative(x.magnitude());
    let v = size(x.value());
    let num = v * w;
    lemma_pow2_adds(276, 925);
    lemma_pow2_strictly_increases(1201, 2097);
    assert(0 <= num <= pow2(276) * w) by (nonlinear_arith)
        requires
            num == v * w,
            0 <= v <= pow2(276),
            w > 0,
    ;
    assert(pow2(2097) * 1 == pow2(2097));
    lemma_nearest_finite(num, 1);
    lemma_nearest_error(num, 1);
    let m = nearest_magnitude(num, 1, 53);
    assert(units(m, 53) * 1 == units(m, 53));
    lemma_signed(x.negative(), m);
    assert((-v) * w == -(v * w)) by (nonlinear_arith);
}

} // verus!
