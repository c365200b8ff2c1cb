//! Rounding of exact quotients to a binary format with a fixed number of significant bits.
//!
//! A non-negative floating-point number of precision `p` is identified by its *magnitude*: its
//! bit pattern without the sign. Its value is a whole number of units, where one unit is the
//! smallest positive number of the format.

use vstd::arithmetic::div_mod::{lemma_fundamental_div_mod, lemma_fundamental_div_mod_converse};
use vstd::arithmetic::power2::{
    lemma2_to64, lemma2_to64_rest, lemma_pow2_adds, lemma_pow2_pos, lemma_pow2_strictly_increases, lemma_pow2_unfold,
    pow2,
};
use vstd::prelude::*;

verus! {

/// The integer nearest to `num / den`; of two that are equally near, the even one.
pub open spec fn round_half_even(num: int, den: int) -> int {
    if 2 * (num % den) < den || (2 * (num % den) == den && (num / den) % 2 == 0) {
        num / den
    } else {
        num / den + 1
    }
}

proof fn lemma_at_least_two_units(num: int, den: int, p: nat)
    requires
        p > 0,
        den > 0,
        num >= pow2(p) * den,
    ensures
        num >= 2 * den,
{
    lemma_pow2_unfold(p);
    lemma_pow2_pos((p - 1) as nat);
    assert(num >= 2 * den) by (nonlinear_arith)
        requires
            den > 0,
            pow2(p) >= 2,
            num >= pow2(p) * den,
    ;
}

#[via_fn]
proof fn nearest_magnitude_decreases(num: int, den: int, p: nat) {
    if p > 0 && den > 0 && num >= pow2(p) * den {
        lemma_at_least_two_units(num, den, p);
    }
}

/// The magnitude of the number of precision `p` that is nearest to `num / den` units, ties going
/// to the even significand. Below `2^p` units neighbouring numbers are one unit apart; each
/// doubling of the value then doubles that distance and adds `2^(p-1)` to the magnitude.
pub open spec fn nearest_magnitude(num: int, den: int, p: nat) -> int
    decreases num - den,
    via nearest_magnitude_decreases
{
    if p == 0 || den <= 0 || num < pow2(p) * den {
        round_half_even(num, den)
    } else {
        pow2((p - 1) as nat) + nearest_magnitude(num, 2 * den, p)
    }
}

/// The significand of the number with magnitude `mag`.
pub open spec fn significand(mag: int, p: nat) -> int {
    if mag < pow2(p) {
        mag
    } else {
        pow2((p - 1) as nat) + mag % (pow2((p - 1) as nat) as int)
    }
}

/// How many times the significand is doubled to give the value in units.
pub open spec fn scale(mag: int, p: nat) -> nat {
    if mag < pow2(p) {
        0
    } else {
        (mag / (pow2((p - 1) as nat) as int) - 1) as nat
    }
}

/// The value, in units, of the number with magnitude `mag`.
pub open spec fn units(mag: int, p: nat) -> int {
    significand(mag, p) * pow2(scale(mag, p))
}

pub proof fn lemma_round_half_even_scales(num: int, den: int, c: int)
    requires
        den > 0,
        c > 0,
    ensures
        round_half_even(num * c, den * c) == round_half_even(num, den),
{
    let q = num / den;
    let r = num % den;
    lemma_fundamental_div_mod(num, den);
    assert(num == den * q + r);
    assert(0 <= r < den);
    assert(num * c == q * (den * c) + r * c) by (nonlinear_arith)
        requires
            num == den * q + r,
    ;
    assert(0 <= r * c < den * c) by (nonlinear_arith)
        requires
            0 <= r < den,
            c > 0,
    ;
    lemma_fundamental_div_mod_converse(num * c, den * c, q, r * c);
    assert(2 * (r * c) < den * c <==> 2 * r < den) by (nonlinear_arith)
        requires
            c > 0,
    ;
    assert(2 * (r * c) == den * c <==> 2 * r == den) by (nonlinear_arith)
        requires
            c > 0,
    ;
}

/// `nearest_magnitude` in closed form, once the scale is known.
pub proof fn lemma_nearest_at_scale(num: int, den: int, p: nat, k: nat)
    requires
        p >= 1,
        den > 0,
        num < pow2(p) * (den * pow2(k)),
        k == 0 || num >= pow2((p - 1) as nat) * (den * pow2(k)),
    ensures
        nearest_magnitude(num, den, p) == k * pow2((p - 1) as nat) + round_half_even(
            num,
            den * pow2(k),
        ),
    decreases k,
{
    lemma2_to64();
    if k == 0 {
        assert(den * pow2(k) == den) by (nonlinear_arith)
            requires
                pow2(k) == 1,
        ;
    } else {
        lemma_pow2_unfold(p);
        lemma_pow2_unfold(k);
        lemma_pow2_pos((k - 1) as nat);
        lemma_pow2_pos((p - 1) as nat);
        let h = pow2((p - 1) as nat) as int;
        let w = pow2((k - 1) as nat) as int;
        assert(den * (2 * w) == (2 * den) * w) by (nonlinear_arith);
        assert(num >= (2 * h) * den) by (nonlinear_arith)
            requires
                num >= h * (den * (2 * w)),
                h > 0,
                w > 0,
                den > 0,
        ;
        if k >= 2 {
            assert(num >= h * ((2 * den) * w));
        }
        lemma_nearest_at_scale(num, 2 * den, p, (k - 1) as nat);
        assert(k * h == h + (k - 1) * h) by (nonlinear_arith);
        assert(nearest_magnitude(num, den, p) == h + nearest_magnitude(num, 2 * den, p));
    }
}

pub proof fn lemma_nearest_at_least_significand(num: int, den: int, p: nat)
    requires
        p >= 1,
        den > 0,
        num >= pow2((p - 1) as nat) * den,
    ensures
        nearest_magnitude(num, den, p) >= pow2((p - 1) as nat),
    decreases num - den,
{
    let h = pow2((p - 1) as nat) as int;
    lemma_pow2_unfold(p);
    lemma_pow2_pos((p - 1) as nat);
    if num < pow2(p) * den {
        assert(num / den >= h) by (nonlinear_arith)
            requires
                num >= h * den,
                den > 0,
        ;
    } else {
        assert(num >= h * (2 * den) && num >= 2 * den) by (nonlinear_arith)
            requires
                num >= (2 * h) * den,
                h > 0,
                den > 0,
        ;
        lemma_nearest_at_least_significand(num, 2 * den, p);
    }
}

/// A value of at least `2^(p-1)` at scale `k` has at least the smallest magnitude of that scale.
pub proof fn lemma_nearest_at_least(num: int, den: int, p: nat, k: nat)
    requires
        p >= 1,
        den > 0,
        num >= pow2((p - 1) as nat) * (den * pow2(k)),
    ensures
        nearest_magnitude(num, den, p) >= (k + 1) * pow2((p - 1) as nat),
    decreases k,
{
    let h = pow2((p - 1) as nat) as int;
    lemma2_to64();
    if k == 0 {
        assert(den * pow2(k) == den) by (nonlinear_arith)
            requires
                pow2(k) == 1,
        ;
        lemma_nearest_at_least_significand(num, den, p);
        assert((k + 1) * h == h) by (nonlinear_arith)
            requires
                k == 0,
        ;
    } else {
        lemma_pow2_unfold(p);
        lemma_pow2_unfold(k);
        lemma_pow2_pos((k - 1) as nat);
        lemma_pow2_pos((p - 1) as nat);
        let w = pow2((k - 1) as nat) as int;
        assert(den * (2 * w) == (2 * den) * w) by (nonlinear_arith);
        assert(num >= (2 * h) * den) by (nonlinear_arith)
            requires
                num >= h * (den * (2 * w)),
                h > 0,
                w > 0,
                den > 0,
        ;
        lemma_nearest_at_least(num, 2 * den, p, (k - 1) as nat);
        assert((k + 1) * h == h + k * h) by (nonlinear_arith);
        assert(nearest_magnitude(num, den, p) == h + nearest_magnitude(num, 2 * den, p));
    }
}

/// The powers of two beyond `2^64` that the executable code meets.
pub proof fn lemma_large_powers()
    ensures
        pow2(0) == 1,
        pow2(23) == 0x80_0000,
        pow2(24) == 0x100_0000,
        pow2(52) == 0x10_0000_0000_0000,
        pow2(53) == 0x20_0000_0000_0000,
        pow2(63) == 0x8000_0000_0000_0000,
        pow2(64) == 0x1_0000_0000_0000_0000,
        pow2(120) == 0x1_00000000_00000000_00000000_000000,
        pow2(127) == 0x8000_0000_0000_0000_0000_0000_0000_0000,
{
    lemma2_to64();
    lemma2_to64_rest();
    lemma_pow2_adds(64, 56);
    lemma_pow2_adds(64, 63);
    assert(0x1_0000_0000_0000_0000int * 0x100_0000_0000_0000int
        == 0x1_00000000_00000000_00000000_000000int) by (nonlinear_arith);
    assert(0x1_0000_0000_0000_0000int * 0x8000_0000_0000_0000int
        == 0x8000_0000_0000_0000_0000_0000_0000_0000int) by (nonlinear_arith);
}

/// `2^e`.
pub(crate) fn power_of_two(e: u32) -> (r: u128)
    requires
        e < 128,
    ensures
        r == pow2(e as nat),
        r > 0,
{
    let mut r: u128 = 1;
    let mut i: u32 = 0;
    proof {
        lemma_large_powers();
    }
    while i < e
        invariant
            i <= e < 128,
            r == pow2(i as nat),
            r > 0,
            pow2(127) == 0x8000_0000_0000_0000_0000_0000_0000_0000,
        decreases e - i,
    {
        proof {
            lemma_pow2_unfold((i + 1) as nat);
            if i + 1 < 127 {
                lemma_pow2_strictly_increases((i + 1) as nat, 127);
            }
        }
        r = 2 * r;
        i = i + 1;
    }
    r
}

/// The number of binary digits of `v`.
pub(crate) fn bit_length(v: u128) -> (n: u32)
    requires
        v < pow2(120),
    ensures
        n <= 120,
        v < pow2(n as nat),
        v > 0 ==> n > 0 && v >= pow2((n - 1) as nat),
        v == 0 ==> n == 0,
{
    let mut n: u32 = 0;
    let mut rest: u128 = v;
    proof {
        lemma2_to64();
        assert(rest * pow2(0) == v) by (nonlinear_arith)
            requires
                pow2(0) == 1,
                rest == v,
        ;
    }
    while rest > 0
        invariant
            n <= 120,
            v < pow2(120),
            rest * pow2(n as nat) <= v < (rest + 1) * pow2(n as nat),
            v == 0 ==> n == 0,
            v > 0 && rest == 0 ==> n > 0 && v >= pow2((n - 1) as nat),
        decreases rest,
    {
        proof {
            lemma_pow2_unfold((n + 1) as nat);
            lemma_pow2_pos(n as nat);
            let h: int = pow2(n as nat) as int;
            let half: int = (rest / 2) as int;
            assert(rest * h >= h) by (nonlinear_arith)
                requires
                    rest > 0,
                    h > 0,
            ;
            assert(half * (2 * h) <= rest * h) by (nonlinear_arith)
                requires
                    2 * half <= rest,
                    h > 0,
            ;
            assert((rest + 1) * h <= (half + 1) * (2 * h)) by (nonlinear_arith)
                requires
                    rest + 1 <= 2 * half + 2,
                    h > 0,
            ;
            if half == 0 {
                assert(rest * h == h) by (nonlinear_arith)
                    requires
                        rest == 1,
                ;
            }
        }
        rest = rest / 2;
        n = n + 1;
    }
    proof {
        assert((rest + 1) * pow2(n as nat) == pow2(n as nat)) by (nonlinear_arith)
            requires
                rest == 0,
        ;
    }
    n
}

/// `num / den` units lie in `[v * 2^k, (v + 1) * 2^k)`, and above its lower end exactly when
/// `inexact`. The exponents are shifted up by 4096 so that a negative `k` needs no fractions.
pub open spec fn brackets(num: int, den: int, v: int, k: int, inexact: bool) -> bool {
    &&& v * (den * pow2((k + 4096) as nat)) <= num * pow2(4096)
    &&& num * pow2(4096) < (v + 1) * (den * pow2((k + 4096) as nat))
    &&& inexact <==> num * pow2(4096) != v * (den * pow2((k + 4096) as nat))
}

/// Whether dropping the last `t` binary digits of `v`, with more below them when `inexact`,
/// rounds upwards.
pub open spec fn rounds_up(v: int, t: nat, inexact: bool) -> bool {
    let unit = pow2(t) as int;
    let rest = v % unit;
    2 * rest > unit || (2 * rest == unit && (inexact || (v / unit) % 2 == 1))
}

/// Doubling the leading digits while halving the scale keeps the bracket.
proof fn lemma_brackets_shift(num: int, den: int, v: int, k: int, z: nat)
    requires
        brackets(num, den, v, k, false),
        den > 0,
        k - z >= 0,
    ensures
        brackets(num, den, v * pow2(z), k - z, false),
{
    let c = pow2((k - z + 4096) as nat) as int;
    let d = pow2(z) as int;
    lemma_pow2_adds((k - z + 4096) as nat, z);
    lemma_pow2_pos((k - z + 4096) as nat);
    assert((k - z + 4096) as nat + z == (k + 4096) as nat);
    assert(v * (den * (c * d)) == (v * d) * (den * c)) by (nonlinear_arith);
    assert((v * d) * (den * c) < (v * d + 1) * (den * c)) by (nonlinear_arith)
        requires
            den > 0,
            c > 0,
    ;
}

/// The nearest magnitude of a bracketed value, from the leading digits of the bracket.
pub proof fn lemma_nearest_of_bracket(num: int, den: int, v: int, k: int, inexact: bool, p: nat, t: nat)
    requires
        brackets(num, den, v, k, inexact),
        den > 0,
        v >= 0,
        p >= 1,
        -4096 <= k,
        k + t >= 0,
        inexact ==> t >= 1,
        v / (pow2(t) as int) < pow2(p),
        k + t == 0 || v / (pow2(t) as int) >= pow2((p - 1) as nat),
    ensures
        nearest_magnitude(num, den, p) == (k + t) * pow2((p - 1) as nat) + v / (pow2(t) as int)
            + if rounds_up(v, t, inexact) {
            1int
        } else {
            0int
        },
        k + t > 0 ==> num >= pow2((p - 1) as nat) * (den * pow2((k + t) as nat)),
{
    let b = pow2(t) as int;
    let c = pow2(4096) as int;
    let w = den * pow2((k + 4096) as nat);
    let kk = (k + t) as nat;
    let n = num * c;
    let s = v / b;
    let rest = v % b;
    let e = n - v * w;
    lemma_pow2_pos(t);
    lemma_pow2_pos(4096);
    lemma_pow2_pos((k + 4096) as nat);
    lemma_pow2_pos(kk);
    lemma_pow2_adds((k + 4096) as nat, t);
    lemma_pow2_adds(kk, 4096);
    assert((k + 4096) as nat + t == kk + 4096);
    let dk = den * pow2(kk);
    assert(w > 0 && dk > 0) by (nonlinear_arith)
        requires
            w == den * pow2((k + 4096) as nat),
            dk == den * pow2(kk),
            den > 0,
            pow2((k + 4096) as nat) > 0,
            pow2(kk) > 0,
    ;
    assert(dk * c == w * b) by (nonlinear_arith)
        requires
            dk == den * pow2(kk),
            w == den * pow2((k + 4096) as nat),
            pow2(kk) * c == pow2((k + 4096) as nat) * b,
    ;
    lemma_fundamental_div_mod(v, b);
    assert(0 <= rest < b);
    assert(0 <= e < w) by (nonlinear_arith)
        requires
            e == n - v * w,
            v * w <= n < (v + 1) * w,
    ;
    assert(n == s * (w * b) + (rest * w + e)) by (nonlinear_arith)
        requires
            n == v * w + e,
            v == b * s + rest,
    ;
    assert(0 <= rest * w + e < w * b) by (nonlinear_arith)
        requires
            0 <= rest <= b - 1,
            0 <= e < w,
    ;
    lemma_fundamental_div_mod_converse(n, w * b, s, rest * w + e);
    // The decision on the quotient `n / (w * b)` agrees with the one on the digits of `v`.
    let r2 = 2 * (rest * w + e);
    if 2 * rest < b {
        if t == 0 {
            lemma2_to64();
            assert(rest * w == 0) by (nonlinear_arith)
                requires
                    rest == 0,
            ;
            assert(r2 < w * b) by (nonlinear_arith)
                requires
                    b == 1,
                    w > 0,
                    r2 == 0,
            ;
        } else {
            lemma_pow2_unfold(t);
            assert(2 * rest <= b - 2);
            assert(r2 < w * b) by (nonlinear_arith)
                requires
                    r2 == 2 * (rest * w + e),
                    2 * rest <= b - 2,
                    e < w,
                    w > 0,
            ;
        }
    } else if 2 * rest > b {
        assert(r2 > w * b) by (nonlinear_arith)
            requires
                r2 == 2 * (rest * w + e),
                2 * rest > b,
                e >= 0,
                w > 0,
        ;
    } else {
        assert(r2 == w * b + 2 * e) by (nonlinear_arith)
            requires
                r2 == 2 * (rest * w + e),
                2 * rest == b,
        ;
    }
    assert(round_half_even(n, w * b) == s + if rounds_up(v, t, inexact) {
        1int
    } else {
        0int
    });
    lemma_round_half_even_scales(num, dk, c);
    // The scale `kk` is the right one.
    let hp = pow2(p) as int;
    assert(num < hp * dk) by (nonlinear_arith)
        requires
            n == num * c,
            n == s * (dk * c) + (rest * w + e),
            rest * w + e < dk * c,
            s + 1 <= hp,
            c > 0,
            dk > 0,
    ;
    if kk > 0 {
        let h = pow2((p - 1) as nat) as int;
        assert(num >= h * dk) by (nonlinear_arith)
            requires
                n == num * c,
                n >= s * (dk * c),
                s >= h,
                c > 0,
                dk > 0,
        ;
    }
    lemma_nearest_at_scale(num, den, p, kk);
}

proof fn lemma_half_of_power(t: nat, rest: int)
    requires
        t >= 1,
    ensures
        2 * rest > pow2(t) <==> rest > pow2((t - 1) as nat),
        2 * rest == pow2(t) <==> rest == pow2((t - 1) as nat),
{
    lemma_pow2_unfold(t);
}

proof fn lemma_quotient_digits(v: int, n: nat, t: nat)
    requires
        0 <= v < pow2(n),
        t <= n,
    ensures
        v / (pow2(t) as int) < pow2((n - t) as nat),
        n > t && v >= pow2((n - 1) as nat) ==> v / (pow2(t) as int) >= pow2((n - t - 1) as nat),
{
    let b = pow2(t) as int;
    let q = v / b;
    lemma_pow2_pos(t);
    lemma_pow2_adds((n - t) as nat, t);
    lemma_fundamental_div_mod(v, b);
    let hi = pow2((n - t) as nat) as int;
    assert(q < hi) by (nonlinear_arith)
        requires
            v == b * q + v % b,
            v % b >= 0,
            v < hi * b,
            b > 0,
    ;
    if n > t && v >= pow2((n - 1) as nat) {
        lemma_pow2_adds((n - t - 1) as nat, t);
        let lo = pow2((n - t - 1) as nat) as int;
        assert(q >= lo) by (nonlinear_arith)
            requires
                v == b * q + v % b,
                v % b < b,
                v >= lo * b,
                b > 0,
        ;
    }
}

/// A bracketed value at a scale of `2^-128` or less rounds to zero.
proof fn lemma_far_below_one(num: int, den: int, v: int, k: int, inexact: bool, p: nat)
    requires
        brackets(num, den, v, k, inexact),
        den > 0,
        0 <= v < pow2(120),
        -4096 <= k <= -128,
        p >= 1,
    ensures
        nearest_magnitude(num, den, p) == 0,
{
    let c = pow2(4096) as int;
    let w = pow2((k + 4096) as nat) as int;
    let g = pow2((-k) as nat) as int;
    lemma_large_powers();
    lemma_pow2_pos(4096);
    lemma_pow2_pos((k + 4096) as nat);
    lemma_pow2_adds((k + 4096) as nat, (-k) as nat);
    assert((k + 4096) as nat + (-k) as nat == 4096nat);
    lemma_pow2_unfold(128);
    if -k > 128 {
        lemma_pow2_strictly_increases(128, (-k) as nat);
    }
    lemma_pow2_unfold(p);
    lemma_pow2_pos((p - 1) as nat);
    assert(c == w * g);
    assert(v + 1 <= pow2(120));
    assert(4 * (v + 1) <= g);
    assert(4 * num < den && num >= 0) by (nonlinear_arith)
        requires
            v * (den * w) <= num * c,
            num * c < (v + 1) * (den * w),
            c == w * g,
            4 * (v + 1) <= g,
            v >= 0,
            w > 0,
            den > 0,
    ;
    assert(num < pow2(p) * den) by (nonlinear_arith)
        requires
            num < den,
            pow2(p) >= 1,
            den > 0,
    ;
    lemma_fundamental_div_mod_converse(num, den, 0, num);
}

/// The magnitude nearest to the value that `v`, `k` and `inexact` bracket, in the format with
/// `p` significant bits whose infinity has magnitude `inf`.
pub(crate) fn nearest(
    v: u128,
    k: i32,
    inexact: bool,
    p: u32,
    inf: u64,
    Ghost(num): Ghost<int>,
    Ghost(den): Ghost<int>,
) -> (mag: u64)
    requires
        p == 53 && inf == 0x7ff0_0000_0000_0000 || p == 24 && inf == 0x7f80_0000,
        v < pow2(120),
        -4000 <= k <= 4000,
        den > 0,
        brackets(num, den, v as int, k as int, inexact),
        inexact ==> v >= pow2(p as nat),
    ensures
        mag <= inf,
        mag == if nearest_magnitude(num, den, p as nat) < inf {
            nearest_magnitude(num, den, p as nat)
        } else {
            inf as int
        },
{
    proof {
        lemma_large_powers();
    }
    if v == 0 {
        proof {
            let w = den * pow2((k + 4096) as nat);
            assert(0 * w == 0) by (nonlinear_arith);
            lemma_pow2_pos(4096);
            assert(num == 0) by (nonlinear_arith)
                requires
                    num * pow2(4096) == 0,
                    pow2(4096) > 0,
            ;
            lemma_pow2_pos(p as nat);
            assert(0 < pow2(p as nat) * den) by (nonlinear_arith)
                requires
                    pow2(p as nat) > 0,
                    den > 0,
            ;
        }
        return 0;
    }
    let n: u32 = bit_length(v);
    let step: u64 = if p == 53 {
        0x10_0000_0000_0000
    } else {
        0x80_0000
    };
    let top: i32 = if p == 53 {
        2045
    } else {
        253
    };
    if n < p && k > 0 {
        // Too few digits: bring in zeros from the scale.
        let room: i32 = (p - n) as i32;
        let z: u32 = if room < k {
            room as u32
        } else {
            k as u32
        };
        let f: u128 = power_of_two(z);
        proof {
            lemma_pow2_adds(n as nat, z as nat);
            lemma_pow2_adds((n - 1) as nat, z as nat);
            let vn = pow2(n as nat) as int;
            let vl = pow2((n - 1) as nat) as int;
            assert(v * f < vn * f && v * f >= vl * f) by (nonlinear_arith)
                requires
                    v < vn,
                    v >= vl,
                    f > 0,
            ;
            if n + z < 64 {
                lemma_pow2_strictly_increases((n + z) as nat, 64);
            }
            if n + z < p {
                lemma_pow2_strictly_increases((n + z) as nat, p as nat);
            }
            if p == 24 {
                lemma_pow2_strictly_increases(24, 53);
            }
            lemma_pow2_strictly_increases(53, 120);
            lemma_pow2_strictly_increases(n as nat, p as nat);
            assert(!inexact);
            lemma_brackets_shift(num, den, v as int, k as int, z as nat);
        }
        let s: u128 = v * f;
        let kk: i32 = k - z as i32;
        proof {
            assert(pow2(0) == 1);
            assert(s / 1 == s && s % 1 == 0);
            if kk > 0 {
                assert(n + z == p);
            }
            lemma_nearest_of_bracket(num, den, s as int, kk as int, false, p as nat, 0);
        }
        if kk > top {
            proof {
                lemma_nearest_at_least(num, den, p as nat, kk as nat);
                assert((kk + 1) * step >= inf) by (nonlinear_arith)
                    requires
                        p == 53 && inf == 0x7ff0_0000_0000_0000 && step == 0x10_0000_0000_0000
                            && kk >= 2046 || p == 24 && inf == 0x7f80_0000 && step == 0x80_0000
                            && kk >= 254,
                ;
            }
            return inf;
        }
        assert(kk * step <= top * step) by (nonlinear_arith)
            requires
                kk <= top,
                step > 0,
        ;
        assert(kk * step >= 0) by (nonlinear_arith)
            requires
                kk >= 0,
        ;
        assert(top * step + 2 * step == inf);
        return kk as u64 * step + s as u64;
    }
    let mut t: i32 = 0;
    if n > p {
        t = (n - p) as i32;
    }
    if t < -k {
        t = -k;
    }
    if t >= 128 {
        // Far below one half of a unit.
        proof {
            assert(k == -t);
            lemma_far_below_one(num, den, v as int, k as int, inexact, p as nat);
        }
        return 0;
    }
    let b: u128 = power_of_two(t as u32);
    let s: u128 = v / b;
    let rest: u128 = v % b;
    let kk: i32 = k + t;
    proof {
        if t <= n {
            lemma_quotient_digits(v as int, n as nat, t as nat);
            if n - t < p {
                lemma_pow2_strictly_increases((n - t) as nat, p as nat);
            }
        } else {
            lemma_pow2_strictly_increases(n as nat, t as nat);
            assert(s == 0) by (nonlinear_arith)
                requires
                    s == v / b,
                    v < b,
                    b > 0,
            ;
        }
        if inexact && n <= p {
            if n < p {
                lemma_pow2_strictly_increases(n as nat, p as nat);
            }
        }
        lemma_nearest_of_bracket(num, den, v as int, k as int, inexact, p as nat, t as nat);
    }
    if kk > top {
        proof {
            lemma_nearest_at_least(num, den, p as nat, kk as nat);
            assert((kk + 1) * step >= inf) by (nonlinear_arith)
                requires
                    p == 53 && inf == 0x7ff0_0000_0000_0000 && step == 0x10_0000_0000_0000 && kk
                        >= 2046 || p == 24 && inf == 0x7f80_0000 && step == 0x80_0000 && kk >= 254,
            ;
        }
        return inf;
    }
    assert(kk * step <= top * step) by (nonlinear_arith)
        requires
            kk <= top,
            step > 0,
    ;
    assert(kk * step >= 0) by (nonlinear_arith)
        requires
            kk >= 0,
    ;
    assert(top * step + 2 * step == inf);
    let low: u64 = kk as u64 * step + s as u64;
    if t == 0 {
        return low;
    }
    let half: u128 = power_of_two((t - 1) as u32);
    proof {
        lemma_half_of_power(t as nat, rest as int);
    }
    if rest > half || (rest == half && (inexact || s % 2 == 1)) {
        low + 1
    } else {
        low
    }
}

} // verus!
