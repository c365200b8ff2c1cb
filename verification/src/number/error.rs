//! How far results of the arithmetic lie from the exact ones.
//!
//! Every result is the exact one rounded once: it is off by at most one part in `2^53`, or by at
//! most half of the smallest positive number.

use super::double::{Double, INFINITE_MAGNITUDE};
use super::laws::{
    lemma_exact, lemma_nearest_increases, lemma_nearest_not_negative, lemma_nearest_scales,
    lemma_nearest_zero, lemma_parts, lemma_units_increase, lemma_units_not_negative,
    lemma_units_zero,
};
use super::root::{is_nearest_root, lemma_root_at_scale, nearest_root_magnitude, root_half_even};
use super::rounding::{
    lemma_large_powers, lemma_nearest_at_least_significand, nearest_magnitude, units,
};
use vstd::arithmetic::div_mod::lemma_fundamental_div_mod;
use vstd::arithmetic::power2::{
    lemma2_to64, lemma_pow2_adds, lemma_pow2_pos, lemma_pow2_strictly_increases, lemma_pow2_unfold,
    pow2,
};
use vstd::prelude::*;

verus! {

/// The distance of two integers.
pub open spec fn distance(a: int, b: int) -> int {
    if a < b {
        b - a
    } else {
        a - b
    }
}

/// The magnitude of an integer.
pub open spec fn size(a: int) -> int {
    distance(a, 0)
}

proof fn lemma_units_small(mag: int)
    requires
        0 <= mag <= 0x20_0000_0000_0000,
    ensures
        units(mag, 53) == mag,
{
    lemma_large_powers();
    lemma_parts(mag);
    lemma_pow2_unfold(1);
    if mag < 0x20_0000_0000_0000 {
        assert(mag * pow2(0) == mag) by (nonlinear_arith)
            requires
                pow2(0) == 1,
        ;
    } else {
        assert(0x10_0000_0000_0000 * pow2(1) == 0x20_0000_0000_0000) by (nonlinear_arith)
            requires
                pow2(1) == 2,
        ;
    }
}

proof fn lemma_units_double(mag: int)
    requires
        mag >= 0x10_0000_0000_0000,
    ensures
        units(mag + 0x10_0000_0000_0000, 53) == 2 * units(mag, 53),
{
    lemma_large_powers();
    lemma_parts(mag);
    lemma_parts(mag + 0x10_0000_0000_0000);
    if mag < 0x20_0000_0000_0000 {
        lemma_units_small(mag);
        lemma_pow2_unfold(1);
        assert(mag * pow2(1) == 2 * mag) by (nonlinear_arith)
            requires
                pow2(1) == 2,
        ;
    } else {
        let k = (mag / 0x10_0000_0000_0000 - 1) as nat;
        let s = 0x10_0000_0000_0000 + mag % 0x10_0000_0000_0000;
        lemma_pow2_unfold((k + 1) as nat);
        assert(s * (2 * pow2(k)) == 2 * (s * pow2(k))) by (nonlinear_arith);
    }
}

/// Rounding `num / den` moves it by at most one part in `2^53`, or by at most half a unit.
pub proof fn lemma_nearest_error(num: int, den: int)
    requires
        num >= 0,
        den > 0,
    ensures
        ({
            let e = distance(units(nearest_magnitude(num, den, 53), 53) * den, num);
            0x20_0000_0000_0000 * e <= num || 2 * e <= den
        }),
    decreases num - den,
{
    lemma_large_powers();
    let h: int = 0x10_0000_0000_0000;
    assert(pow2(53) * den == (2 * h) * den);
    let m = nearest_magnitude(num, den, 53);
    if num < pow2(53) * den {
        let q = num / den;
        lemma_fundamental_div_mod(num, den);
        assert(0 <= q < 2 * h) by (nonlinear_arith)
            requires
                0 <= num < (2 * h) * den,
                num == den * q + num % den,
                0 <= num % den < den,
                den > 0,
        ;
        lemma_units_small(m);
        assert(q * den == den * q) by (nonlinear_arith);
        assert((q + 1) * den == den * q + den) by (nonlinear_arith);
    } else {
        assert(num >= h * (2 * den) && num >= 2 * den) by (nonlinear_arith)
            requires
                num >= (2 * h) * den,
                h > 0,
                den > 0,
        ;
        let n = nearest_magnitude(num, 2 * den, 53);
        lemma_nearest_at_least_significand(num, 2 * den, 53);
        lemma_nearest_error(num, 2 * den);
        lemma_units_double(n);
        let u = units(n, 53);
        assert((2 * u) * den == u * (2 * den)) by (nonlinear_arith);
        let e = distance(u * (2 * den), num);
        if 2 * e <= 2 * den {
            assert((2 * h) * e <= num) by (nonlinear_arith)
                requires
                    e <= den,
                    num >= h * (2 * den),
                    h > 0,
            ;
        }
    }
}

/// Quotients of up to `2^2097` units are rounded to finite numbers.
pub proof fn lemma_nearest_finite(num: int, den: int)
    requires
        0 <= num <= pow2(2097) * den,
        den > 0,
    ensures
        0 <= nearest_magnitude(num, den, 53) < INFINITE_MAGNITUDE,
{
    lemma_large_powers();
    let top: int = 0x7fe0_0000_0000_0000;
    lemma_parts(top);
    lemma_pow2_adds(52, 2045);
    assert(units(top, 53) == pow2(2097));
    lemma_exact(top);
    lemma_nearest_scales(pow2(2097) as int, 1, den, 53);
    assert(1 * den == den);
    lemma_nearest_increases(num, pow2(2097) * den, den, 53);
    lemma_nearest_not_negative(num, den, 53);
}

pub proof fn lemma_signed(negative: bool, mag: int)
    requires
        0 <= mag < INFINITE_MAGNITUDE,
    ensures
        Double::of(negative, mag).finite(),
        Double::of(negative, mag).value() == if negative {
            -units(mag, 53)
        } else {
            units(mag, 53)
        },
{
}

pub proof fn lemma_value_size(a: Double)
    requires
        a.finite(),
    ensures
        size(a.value()) == units(a.magnitude(), 53),
        a.zero() <==> a.value() == 0,
{
    lemma_units_zero();
    if a.magnitude() > 0 {
        lemma_units_increase(0, a.magnitude());
    }
}

/// A sum of finite numbers is the exact one, rounded once: it is off by at most one part in
/// `2^53`.
pub proof fn law_sum_is_rounded(a: Double, b: Double)
    requires
        a.finite(),
        b.finite(),
        size(a.value() + b.value()) <= pow2(2097),
    ensures
        a.plus(b).finite(),
        0x20_0000_0000_0000 * distance(a.plus(b).value(), a.value() + b.value()) <= size(
            a.value() + b.value(),
        ),
{
    let x = a.value() + b.value();
    let m = nearest_magnitude(size(x), 1, 53);
    assert(pow2(2097) * 1 == pow2(2097));
    lemma_nearest_finite(size(x), 1);
    lemma_nearest_error(size(x), 1);
    assert(units(m, 53) * 1 == units(m, 53));
    lemma_signed(x < 0, m);
    lemma_units_zero();
}

/// A difference of finite numbers is the exact one, rounded once.
pub proof fn law_difference_is_rounded(a: Double, b: Double)
    requires
        a.finite(),
        b.finite(),
        size(a.value() - b.value()) <= pow2(2097),
    ensures
        a.minus(b).finite(),
        0x20_0000_0000_0000 * distance(a.minus(b).value(), a.value() - b.value()) <= size(
            a.value() - b.value(),
        ),
{
    let n = b.negated();
    assert(n.negative() == !b.negative() && n.magnitude() == b.magnitude());
    assert(n.value() == -b.value());
    law_sum_is_rounded(a, n);
}

proof fn lemma_same_direction(q: int, den: int, v: int, y: int)
    requires
        q >= 0,
        den > 0,
        den == size(y),
    ensures
        v == q && y > 0 ==> v * y == q * den,
        v == q && y < 0 ==> v * y == -(q * den),
        v == -q && y > 0 ==> v * y == -(q * den),
        v == -q && y < 0 ==> v * y == q * den,
{
    assert((-q) * den == -(q * den)) by (nonlinear_arith);
    assert(q * (-den) == -(q * den)) by (nonlinear_arith);
    assert((-q) * (-den) == q * den) by (nonlinear_arith);
}

/// A quotient of finite numbers is the exact one, rounded once: multiplied by the divisor it gives
/// back what was divided, but for one part in `2^53` or half of the smallest positive number.
pub proof fn law_quotient_is_rounded(a: Double, b: Double)
    requires
        a.finite(),
        b.finite(),
        b.value() != 0,
        size(a.value()) * pow2(1074) <= pow2(2097) * size(b.value()),
    ensures
        a.over(b).finite(),
        ({
            let e = distance(a.over(b).value() * b.value(), a.value() * pow2(1074));
            0x20_0000_0000_0000 * e <= size(a.value()) * pow2(1074) || 2 * e <= size(b.value())
        }),
{
    lemma_value_size(a);
    lemma_value_size(b);
    lemma_pow2_pos(1074);
    let u = pow2(1074) as int;
    let (num, den) = (size(a.value()) * u, size(b.value()));
    assert(num >= 0) by (nonlinear_arith)
        requires
            num == size(a.value()) * u,
            size(a.value()) >= 0,
            u > 0,
    ;
    let m = nearest_magnitude(num, den, 53);
    let negative = a.negative() != b.negative();
    lemma_nearest_finite(num, den);
    lemma_nearest_error(num, den);
    lemma_signed(negative, m);
    let q = units(m, 53);
    let (x, y, v) = (a.value(), b.value(), a.over(b).value());
    assert(a.over(b) == Double::of(negative, m));
    if x == 0 {
        lemma_nearest_zero(den);
        assert(num == 0) by (nonlinear_arith)
            requires
                num == 0 * u,
        ;
    }
    assert(v * y == q * den || v * y == -(q * den)) by (nonlinear_arith)
        requires
            v == q || v == -q,
            den == y || den == -y,
    ;
    assert(x * u == num || x * u == -num) by (nonlinear_arith)
        requires
            num == x * u || num == (-x) * u,
    ;
    assert((x < 0) == (x * u < 0)) by (nonlinear_arith)
        requires
            u > 0,
    ;
    lemma_units_not_negative(m);
    lemma_same_direction(q, den, v, y);
    lemma_units_zero();
}

/// A product of finite numbers is the exact one, rounded once: it is off by at most one part in
/// `2^53`, or half the smallest positive number.
pub proof fn law_product_is_rounded(a: Double, b: Double)
    requires
        a.finite(),
        b.finite(),
        size(a.value()) * size(b.value()) <= pow2(2097) * pow2(1074),
    ensures
        a.times(b).finite(),
        ({
            let e = distance(a.times(b).value() * pow2(1074), a.value() * b.value());
            0x20_0000_0000_0000 * e <= size(a.value()) * size(b.value()) || 2 * e <= pow2(1074)
        }),
{
    lemma_value_size(a);
    lemma_value_size(b);
    lemma_pow2_pos(1074);
    let u = pow2(1074) as int;
    let (x, y) = (a.value(), b.value());
    let num = size(x) * size(y);
    assert(num >= 0) by (nonlinear_arith)
        requires
            num == size(x) * size(y),
            size(x) >= 0,
            size(y) >= 0,
    ;
    let m = nearest_magnitude(num, u, 53);
    let negative = a.negative() != b.negative();
    lemma_nearest_finite(num, u);
    lemma_nearest_error(num, u);
    lemma_signed(negative, m);
    lemma_units_not_negative(m);
    let q = units(m, 53);
    let v = a.times(b).value();
    assert(a.times(b) == Double::of(negative, m));
    if num == 0 {
        lemma_nearest_zero(u);
        lemma_units_zero();
        assert(v == 0);
        assert(x * y == 0) by (nonlinear_arith)
            requires
                size(x) * size(y) == 0,
        ;
        assert(v * u == 0);
    } else {
        assert(x != 0 && y != 0) by (nonlinear_arith)
            requires
                size(x) * size(y) != 0,
        ;
        assert(x * y == num || x * y == -num) by (nonlinear_arith)
            requires
                num == size(x) * size(y),
        ;
        assert((x * y < 0) == ((x < 0) != (y < 0))) by (nonlinear_arith)
            requires
                x != 0,
                y != 0,
        ;
        assert((-q) * u == -(q * u)) by (nonlinear_arith);
        lemma_units_zero();
        assert(negative == (x * y < 0));
    }
}

/// An integer that is not negative is the exact one, rounded once.
pub proof fn law_integer_is_rounded(n: int)
    requires
        0 <= n <= pow2(1023),
    ensures
        Double::integer(n).finite(),
        0x20_0000_0000_0000 * distance(Double::integer(n).value(), n * pow2(1074)) <= n * pow2(1074),
{
    let u = pow2(1074) as int;
    let x = n * u;
    lemma_pow2_pos(1074);
    lemma_pow2_adds(1023, 1074);
    assert(0 <= x <= pow2(2097)) by (nonlinear_arith)
        requires
            x == n * u,
            0 <= n <= pow2(1023),
            u > 0,
            pow2(2097) == pow2(1023) * u,
    ;
    assert(pow2(2097) * 1 == pow2(2097));
    let m = nearest_magnitude(x, 1, 53);
    lemma_nearest_finite(x, 1);
    lemma_nearest_error(x, 1);
    assert(units(m, 53) * 1 == units(m, 53));
    lemma_signed(false, m);
}

proof fn lemma_floor_root(num: int, den: int, t: int) -> (f: int)
    requires
        den > 0,
        t >= 0,
        (t * t) * den <= num,
    ensures
        f >= 0,
        (f * f) * den <= num,
        num < ((f + 1) * (f + 1)) * den,
    decreases num + 1 - t,
{
    assert(t <= num) by (nonlinear_arith)
        requires
            den > 0,
            t >= 0,
            (t * t) * den <= num,
    ;
    if num < ((t + 1) * (t + 1)) * den {
        t
    } else {
        lemma_floor_root(num, den, t + 1)
    }
}

/// The nearest root exists, and is at most half off.
pub proof fn lemma_root_half_even(num: int, den: int)
    requires
        num >= 0,
        den > 0,
    ensures
        is_nearest_root(num, den, root_half_even(num, den)),
{
    let f = lemma_floor_root(num, den, 0);
    let (a, b) = (2 * f + 1, 2 * f - 1);
    let g = 2 * f + 3;
    assert((b * b) * den < 4 * num || f == 0) by (nonlinear_arith)
        requires
            (f * f) * den <= num,
            f >= 0,
            b == 2 * f - 1,
            den > 0,
    ;
    assert(4 * num < (g * g) * den) by (nonlinear_arith)
        requires
            num < ((f + 1) * (f + 1)) * den,
            f >= 0,
            g == 2 * f + 3,
            den > 0,
    ;
    if 4 * num < (a * a) * den || (4 * num == (a * a) * den && f % 2 == 0) {
        assert(is_nearest_root(num, den, f));
    } else {
        assert(2 * (f + 1) - 1 == a && 2 * (f + 1) + 1 == g);
        assert(is_nearest_root(num, den, f + 1));
    }
}

proof fn lemma_root_scale(num: int, k: nat) -> (r: nat)
    requires
        num >= (pow2(52) * pow2(52)) * pow2(2 * k),
    ensures
        r >= k,
        num >= (pow2(52) * pow2(52)) * pow2(2 * r),
        num < (pow2(53) * pow2(53)) * pow2(2 * r),
    decreases num - pow2(2 * k),
{
    let h = pow2(52) as int;
    let w = pow2(2 * k) as int;
    lemma_pow2_unfold(53);
    lemma_pow2_pos(52);
    lemma_pow2_pos(2 * k);
    lemma_pow2_unfold(2 * k + 2);
    lemma_pow2_unfold(2 * k + 1);
    assert(2 * (k + 1) == 2 * k + 2);
    assert(pow2(2 * (k + 1)) == 4 * w);
    if num < (pow2(53) * pow2(53)) * pow2(2 * k) {
        k
    } else {
        assert((h * h) * (4 * w) == ((2 * h) * (2 * h)) * w) by (nonlinear_arith);
        assert((h * h) * (4 * w) >= 4 * w) by (nonlinear_arith)
            requires
                h >= 1,
                w > 0,
        ;
        lemma_root_scale(num, k + 1)
    }
}

/// A square root is the exact one, rounded once: it is off by at most one part in `2^53`.
pub proof fn law_root_is_rounded(x: Double)
    requires
        x.finite(),
        x.value() >= 0,
    ensures
        x.square_root().finite(),
        x.square_root().value() >= 0,
        ({
            let r = x.square_root().value();
            let n = x.value() * pow2(1074);
            let c: int = 0x20_0000_0000_0000;
            &&& ((c - 1) * (c - 1)) * (r * r) <= (c * c) * n
            &&& (c * c) * n <= ((c + 1) * (c + 1)) * (r * r)
        }),
{
    lemma_value_size(x);
    lemma_large_powers();
    lemma_pow2_pos(1074);
    let u = pow2(1074) as int;
    let h: int = 0x10_0000_0000_0000;
    let c = 2 * h;
    let v = x.value();
    if v == 0 {
        assert(0 * u == 0 && (c * c) * 0 == 0 && ((c - 1) * (c - 1)) * 0 == 0);
        assert(v * u == 0) by (nonlinear_arith)
            requires
                v == 0,
        ;
        assert(((c + 1) * (c + 1)) * 0 == 0);
    } else {
        let n = v * u;
        assert(n >= u) by (nonlinear_arith)
            requires
                n == v * u,
                v >= 1,
                u > 0,
        ;
        lemma_pow2_adds(52, 52);
        lemma_pow2_strictly_increases(104, 1074);
        lemma2_to64();
        assert((pow2(52) * pow2(52)) * pow2(0) == pow2(52) * pow2(52)) by (nonlinear_arith)
            requires
                pow2(0) == 1,
        ;
        let k = lemma_root_scale(n, 0);
        let w = pow2(k) as int;
        let den = pow2(2 * k) as int;
        lemma_pow2_pos(k);
        lemma_pow2_pos(2 * k);
        lemma_pow2_adds(k, k);
        assert(1 * den == den);
        lemma_root_at_scale(n, 1, 53, k);
        lemma_root_half_even(n, den);
        let s = root_half_even(n, den);
        assert(den == w * w);
        let (lo, hi) = (2 * s - 1, 2 * s + 1);
        assert(s >= h) by (nonlinear_arith)
            requires
                n >= (h * h) * den,
                4 * n <= (hi * hi) * den,
                hi == 2 * s + 1,
                s >= 0,
                den > 0,
        ;
        assert(s <= c) by (nonlinear_arith)
            requires
                n < (c * c) * den,
                s >= h,
                (lo * lo) * den <= 4 * n,
                lo == 2 * s - 1,
                den > 0,
                c == 2 * h,
                h > 0,
        ;
        lemma_root_is_small(x, n, k);
        let mag = k * h + s;
        assert(0 <= mag < INFINITE_MAGNITUDE) by (nonlinear_arith)
            requires
                mag == k * h + s,
                0 <= k <= 2000,
                0 <= s <= 2 * h,
                h == 0x10_0000_0000_0000,
        ;
        assert(mag == nearest_root_magnitude(n, 1, 53));
        lemma_signed(false, mag);
        lemma_scaled_units(s, k);
        let r = s * w;
        assert(x.square_root().value() == r);
        assert(r >= 0) by (nonlinear_arith)
            requires
                r == s * w,
                s >= 0,
                w > 0,
        ;
        assert((r * r) == (s * s) * den) by (nonlinear_arith)
            requires
                r == s * w,
                den == w * w,
        ;
        assert(((c - 1) * (c - 1)) * (s * s) <= (h * h) * (lo * lo)) by (nonlinear_arith)
            requires
                lo == 2 * s - 1,
                s >= h,
                c == 2 * h,
                h >= 1,
        ;
        assert((h * h) * (hi * hi) <= ((c + 1) * (c + 1)) * (s * s)) by (nonlinear_arith)
            requires
                hi == 2 * s + 1,
                s >= h,
                c == 2 * h,
                h >= 1,
        ;
        let (p, q) = ((c - 1) * (c - 1), (c + 1) * (c + 1));
        assert(p * (r * r) <= (c * c) * n) by (nonlinear_arith)
            requires
                r * r == (s * s) * den,
                p * (s * s) <= (h * h) * (lo * lo),
                (lo * lo) * den <= 4 * n,
                c == 2 * h,
                h >= 1,
                den > 0,
        ;
        assert((c * c) * n <= q * (r * r)) by (nonlinear_arith)
            requires
                r * r == (s * s) * den,
                (h * h) * (hi * hi) <= q * (s * s),
                4 * n <= (hi * hi) * den,
                c == 2 * h,
                h >= 1,
                den > 0,
        ;
    }
}

proof fn lemma_root_is_small(x: Double, n: int, k: nat)
    requires
        x.finite(),
        n == x.value() * pow2(1074),
        n >= (pow2(52) * pow2(52)) * pow2(2 * k),
    ensures
        k <= 2000,
{
    lemma_large_powers();
    lemma_parts(0x7ff0_0000_0000_0000);
    lemma_value_size(x);
    lemma_units_increase(x.magnitude(), 0x7ff0_0000_0000_0000);
    lemma_pow2_adds(52, 2046);
    assert(units(0x7ff0_0000_0000_0000, 53) == pow2(2098));
    assert(x.value() <= pow2(2098));
    lemma_pow2_adds(2098, 1074);
    lemma_pow2_pos(1074);
    let u = pow2(1074) as int;
    assert(n <= pow2(2098) * u) by (nonlinear_arith)
        requires
            n == x.value() * u,
            x.value() <= pow2(2098),
            u > 0,
    ;
    if k > 2000 {
        lemma_pow2_adds(52, 52);
        lemma_pow2_adds(104, 2 * k);
        lemma_pow2_strictly_increases(3172, 104 + 2 * k);
    }
}

pub proof fn lemma_scaled_units(s: int, k: nat)
    requires
        0x10_0000_0000_0000 <= s <= 0x20_0000_0000_0000,
    ensures
        units(k * 0x10_0000_0000_0000 + s, 53) == s * pow2(k),
    decreases k,
{
    let h: int = 0x10_0000_0000_0000;
    lemma_large_powers();
    lemma2_to64();
    if k == 0 {
        lemma_units_small(s);
        assert(s * pow2(0) == s);
    } else {
        lemma_scaled_units(s, (k - 1) as nat);
        lemma_pow2_unfold(k);
        lemma_units_double((k - 1) * h + s);
        let w = pow2((k - 1) as nat) as int;
        assert((k - 1) * h + s + h == k * h + s) by (nonlinear_arith);
        assert(s * (2 * w) == 2 * (s * w)) by (nonlinear_arith);
    }
}

/// Whether `x` is `y` but for `k` parts in `2^53`.
pub open spec fn near(x: int, y: int, k: int) -> bool {
    0x20_0000_0000_0000 * distance(x, y) <= k * y
}

/// What is near a number that is near another is near that other.
pub proof fn lemma_near_chain(x: int, y: int, z: int, j: int, k: int)
    requires
        near(x, y, j),
        near(y, z, k),
        0 <= j <= 1000,
        0 <= k <= 1000,
        z >= 0,
    ensures
        near(x, z, j + k + 1),
{
    let c: int = 0x20_0000_0000_0000;
    let (d, e) = (distance(x, y), distance(y, z));
    assert(c * e <= 1000 * z) by (nonlinear_arith)
        requires
            c * e <= k * z,
            k <= 1000,
            z >= 0,
    ;
    assert(1000 * e <= z);
    assert(j * y <= j * z + z) by (nonlinear_arith)
        requires
            y <= z + e,
            1000 * e <= z,
            0 <= j <= 1000,
            e >= 0,
    ;
    assert((j + k + 1) * z == j * z + k * z + z) by (nonlinear_arith);
}

/// Multiples of numbers that are near each other are near each other.
pub proof fn lemma_near_scales(x: int, y: int, k: int, m: int)
    requires
        near(x, y, k),
        m >= 0,
    ensures
        near(x * m, y * m, k),
{
    let c: int = 0x20_0000_0000_0000;
    let d = distance(x, y);
    assert(distance(x * m, y * m) == d * m) by (nonlinear_arith)
        requires
            d == distance(x, y),
            m >= 0,
    ;
    assert(c * (d * m) <= k * (y * m)) by (nonlinear_arith)
        requires
            c * d <= k * y,
            m >= 0,
    ;
}

/// Numbers whose multiples are near each other are near each other.
pub proof fn lemma_near_divides(x: int, y: int, k: int, m: int)
    requires
        near(x * m, y * m, k),
        m > 0,
    ensures
        near(x, y, k),
{
    let c: int = 0x20_0000_0000_0000;
    let d = distance(x, y);
    assert(distance(x * m, y * m) == d * m) by (nonlinear_arith)
        requires
            d == distance(x, y),
            m > 0,
    ;
    assert(c * d <= k * y) by (nonlinear_arith)
        requires
            c * (d * m) <= k * (y * m),
            m > 0,
    ;
}

/// Two sums of numbers that are near each other are near each other.
pub proof fn lemma_near_adds(a: int, b: int, x: int, y: int, k: int)
    requires
        near(a, x, k),
        near(b, y, k),
    ensures
        near(a + b, x + y, k),
{
    assert(k * (x + y) == k * x + k * y) by (nonlinear_arith);
}

/// Being near goes both ways.
pub proof fn lemma_near_back(x: int, y: int, k: int)
    requires
        near(x, y, k),
        0 <= k <= 1000,
        y >= 0,
    ensures
        near(y, x, k + 1),
        x >= 0,
{
    let c: int = 0x20_0000_0000_0000;
    let d = distance(x, y);
    assert(c * d <= 1000 * y) by (nonlinear_arith)
        requires
            c * d <= k * y,
            k <= 1000,
            y >= 0,
    ;
    assert(1000 * d <= x);
    assert(k * y <= (k + 1) * x) by (nonlinear_arith)
        requires
            y <= x + d,
            1000 * d <= x,
            0 <= k <= 1000,
            d >= 0,
    ;
}

/// Integers up to `2^96` are far from the largest finite number.
pub proof fn lemma_within_range(n: int)
    requires
        0 <= n <= 0x1_0000_0000_0000_0000_0000_0000,
    ensures
        n <= pow2(1023),
        n * pow2(1074) <= pow2(2097),
        pow2(1074) > 0x1_0000_0000_0000_0000_0000_0000_0000_0000,
{
    let u = pow2(1074) as int;
    lemma2_to64();
    lemma_pow2_adds(32, 64);
    lemma_pow2_adds(64, 64);
    lemma_pow2_strictly_increases(96, 1023);
    lemma_pow2_strictly_increases(128, 1074);
    lemma_pow2_adds(1023, 1074);
    assert(n * u <= pow2(1023) * u) by (nonlinear_arith)
        requires
            n <= pow2(1023),
            u > 0,
    ;
}

} // verus!
