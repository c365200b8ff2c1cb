//! Sums, products and quotients of magnitudes, correctly rounded.

use super::rounding::{
    bit_length, brackets, lemma_large_powers, nearest, nearest_magnitude, power_of_two, scale,
    significand, units,
};
use vstd::arithmetic::div_mod::lemma_fundamental_div_mod;
use vstd::arithmetic::power2::{
    lemma_pow2_adds, lemma_pow2_pos, lemma_pow2_strictly_increases, lemma_pow2_unfold, pow2,
};
use vstd::prelude::*;

verus! {

/// The two formats: significant bits and magnitude of infinity.
pub open spec fn known_format(p: u32, inf: u64) -> bool {
    p == 53 && inf == 0x7ff0_0000_0000_0000 || p == 24 && inf == 0x7f80_0000
}

/// The exponent of the unit of a format: one unit is `2^-e`.
pub open spec fn unit_exponent(p: u32) -> nat {
    if p == 53 {
        1074
    } else {
        149
    }
}

/// `mag` with everything beyond the largest finite magnitude taken for infinity.
pub open spec fn at_most_infinity(mag: int, inf: u64) -> int {
    if mag < inf {
        mag
    } else {
        inf as int
    }
}

/// Significand and scale of a finite magnitude.
pub(crate) fn parts(mag: u64, p: u32, inf: u64) -> (r: (u64, u32))
    requires
        known_format(p, inf),
        mag < inf,
    ensures
        r.0 == significand(mag as int, p as nat),
        r.1 == scale(mag as int, p as nat),
        r.0 < pow2(p as nat),
        r.1 <= 2045,
        r.1 > 0 ==> r.0 >= pow2((p - 1) as nat),
        units(mag as int, p as nat) == r.0 * pow2(r.1 as nat),
        r.0 == 0 <==> mag == 0,
        units(mag as int, p as nat) >= 0,
        units(mag as int, p as nat) == 0 <==> mag == 0,
{
    proof {
        lemma_large_powers();
    }
    let step: u64 = if p == 53 {
        0x10_0000_0000_0000
    } else {
        0x80_0000
    };
    let (s, k): (u64, u32) = if mag < 2 * step {
        (mag, 0)
    } else {
        (step + mag % step, (mag / step - 1) as u32)
    };
    proof {
        lemma_pow2_pos(k as nat);
        assert(s * pow2(k as nat) >= 0 && (s * pow2(k as nat) == 0 <==> s == 0)) by (nonlinear_arith)
            requires
                pow2(k as nat) > 0,
                s >= 0,
        ;
    }
    (s, k)
}

/// `brackets` for a whole number of units at a scale that is not negative.
proof fn lemma_brackets_whole(num: int, v: int, k: nat, inexact: bool)
    requires
        v * pow2(k) <= num < (v + 1) * pow2(k),
        inexact <==> num != v * pow2(k),
    ensures
        brackets(num, 1, v, k as int, inexact),
{
    let c = pow2(4096) as int;
    let w = pow2(k) as int;
    lemma_pow2_pos(4096);
    lemma_pow2_adds(k, 4096);
    assert(1 * pow2(k + 4096) == w * c);
    assert(v * (w * c) == (v * w) * c) by (nonlinear_arith);
    assert((v + 1) * (w * c) == ((v + 1) * w) * c) by (nonlinear_arith);
    assert((v * w) * c <= num * c < ((v + 1) * w) * c) by (nonlinear_arith)
        requires
            v * w <= num < (v + 1) * w,
            c > 0,
    ;
    assert(num * c == (v * w) * c <==> num == v * w) by (nonlinear_arith)
        requires
            c > 0,
    ;
}

/// The signed value of a sign and a magnitude.
pub open spec fn signed_units(neg: bool, mag: int, p: nat) -> int {
    if neg {
        -units(mag, p)
    } else {
        units(mag, p)
    }
}

pub open spec fn magnitude_of(v: int) -> int {
    if v < 0 {
        -v
    } else {
        v
    }
}

/// The rounded sum of two signed finite magnitudes: whether it is negative, and its magnitude.
/// An exact zero is reported as not negative.
pub(crate) fn sum(neg1: bool, mag1: u64, neg2: bool, mag2: u64, p: u32, inf: u64) -> (r: (bool, u64))
    requires
        known_format(p, inf),
        mag1 < inf,
        mag2 < inf,
    ensures
        ({
            let v = signed_units(neg1, mag1 as int, p as nat) + signed_units(
                neg2,
                mag2 as int,
                p as nat,
            );
            &&& r.0 == (v < 0)
            &&& r.1 == at_most_infinity(
                nearest_magnitude(magnitude_of(v), 1, p as nat),
                inf,
            )
        }),
{
    let (s1, k1) = parts(mag1, p, inf);
    let (s2, k2) = parts(mag2, p, inf);
    if k1 >= k2 {
        aligned_sum(neg1, s1, k1, neg2, s2, k2, p, inf)
    } else {
        aligned_sum(neg2, s2, k2, neg1, s1, k1, p, inf)
    }
}

spec fn signed(neg: bool, v: int) -> int {
    if neg {
        -v
    } else {
        v
    }
}

fn aligned_sum(neg1: bool, s1: u64, k1: u32, neg2: bool, s2: u64, k2: u32, p: u32, inf: u64) -> (r:
    (bool, u64))
    requires
        known_format(p, inf),
        k2 <= k1 <= 2045,
        s1 < pow2(p as nat),
        s2 < pow2(p as nat),
        k1 > 0 ==> s1 >= pow2((p - 1) as nat),
    ensures
        ({
            let v = signed(neg1, s1 * pow2(k1 as nat)) + signed(neg2, s2 * pow2(k2 as nat));
            &&& r.0 == (v < 0)
            &&& r.1 == at_most_infinity(
                nearest_magnitude(magnitude_of(v), 1, p as nat),
                inf,
            )
        }),
{
    let d: u32 = k1 - k2;
    let ghost v1 = s1 * pow2(k1 as nat);
    let ghost v2 = s2 * pow2(k2 as nat);
    let ghost total = signed(neg1, v1) + signed(neg2, v2);
    let ghost w2 = pow2(k2 as nat) as int;
    proof {
        lemma_large_powers();
        lemma_pow2_pos(k1 as nat);
        lemma_pow2_pos(k2 as nat);
        lemma_pow2_strictly_increases(24, 53);
        lemma_pow2_adds(53, 64);
        lemma_pow2_adds(52, 64);
        lemma_pow2_adds(23, 64);
        lemma_pow2_unfold(118);
        lemma_pow2_strictly_increases(118, 120);
    }
    if d <= 64 {
        let f: u128 = power_of_two(d);
        proof {
            lemma_pow2_adds(d as nat, k2 as nat);
            if d < 64 {
                lemma_pow2_strictly_increases(d as nat, 64);
            }
            assert(s1 * f < pow2(117)) by (nonlinear_arith)
                requires
                    s1 < pow2(53),
                    0 < f <= pow2(64),
                    pow2(117) == pow2(53) * pow2(64),
            ;
            assert(v1 == (s1 * f) * w2) by (nonlinear_arith)
                requires
                    v1 == s1 * (f * w2),
            ;
        }
        let a: u128 = s1 as u128 * f;
        let b: u128 = s2 as u128;
        let (neg, v): (bool, u128) = if neg1 == neg2 {
            (neg1, a + b)
        } else if a >= b {
            (neg1, a - b)
        } else {
            (neg2, b - a)
        };
        proof {
            assert(a * w2 + b * w2 == (a + b) * w2) by (nonlinear_arith);
            assert(a * w2 - b * w2 == (a - b) * w2) by (nonlinear_arith);
            assert(-((a - b) * w2) == (b - a) * w2) by (nonlinear_arith);
            assert(v * w2 >= 0 && (v * w2 == 0 <==> v == 0)) by (nonlinear_arith)
                requires
                    w2 > 0,
                    v >= 0,
            ;
            assert(total == signed(neg, v * w2));
            assert(v * w2 < (v + 1) * w2) by (nonlinear_arith)
                requires
                    w2 > 0,
            ;
            lemma_brackets_whole(magnitude_of(total), v as int, k2 as nat, false);
        }
        let mag: u64 = nearest(
            v,
            k2 as i32,
            false,
            p,
            inf,
            Ghost(magnitude_of(total)),
            Ghost(1),
        );
        return (neg && v > 0, mag);
    }
    // The second number reaches at most a little below the last digit of the first.
    let k: u32 = k1 - 64;
    let drop: u32 = d - 64;
    let cut: u32 = if drop < 60 {
        drop
    } else {
        60
    };
    let f: u128 = power_of_two(64);
    let g: u128 = power_of_two(cut);
    let q: u128 = s2 as u128 / g;
    let more: bool = s2 as u128 % g != 0;
    let ghost w = pow2(k as nat) as int;
    proof {
        lemma_pow2_pos(k as nat);
        lemma_pow2_adds(64, k as nat);
        lemma_pow2_strictly_increases(53, 60);
        assert(v1 == (s1 * f) * w) by (nonlinear_arith)
            requires
                v1 == s1 * (f * w),
        ;
        assert(s1 * f < pow2(117) && s1 * f >= pow2(87)) by (nonlinear_arith)
            requires
                s1 < pow2(53),
                s1 >= pow2(23),
                f == pow2(64),
                pow2(117) == pow2(53) * pow2(64),
                pow2(87) == pow2(23) * pow2(64),
                pow2(64) > 0,
        ;
        lemma_pow2_strictly_increases(54, 87);
        lemma_pow2_unfold(54);
        lemma_fundamental_div_mod(s2 as int, g as int);
        if drop < 60 {
            lemma_pow2_adds(drop as nat, k2 as nat);
            let rem = s2 as int % g as int;
            assert(v2 == q * w + rem * w2) by (nonlinear_arith)
                requires
                    v2 == s2 * w2,
                    s2 == g * q + rem,
                    w == g * w2,
            ;
            assert(0 <= rem * w2 < w && (rem * w2 == 0 <==> rem == 0)) by (nonlinear_arith)
                requires
                    0 <= rem < g,
                    w == g * w2,
                    w2 > 0,
            ;
        } else {
            assert(s2 as int / g as int == 0) by (nonlinear_arith)
                requires
                    0 <= s2 < g,
            ;
            assert(s2 as int % g as int == s2) by (nonlinear_arith)
                requires
                    0 <= s2 < g,
            ;
            lemma_pow2_adds(drop as nat, k2 as nat);
            if drop > 60 {
                lemma_pow2_strictly_increases(60, drop as nat);
            }
            assert(0 <= v2 < w && (v2 == 0 <==> s2 == 0)) by (nonlinear_arith)
                requires
                    v2 == s2 * w2,
                    0 <= s2 < pow2(drop as nat),
                    w == pow2(drop as nat) * w2,
                    w2 > 0,
            ;
            assert(q * w == 0) by (nonlinear_arith)
                requires
                    q == 0,
            ;
        }
        assert(q * w <= v2 < q * w + w);
        assert(more <==> v2 != q * w);
        assert(q <= s2) by (nonlinear_arith)
            requires
                s2 == g * q + s2 as int % g as int,
                s2 as int % g as int >= 0,
                g > 0,
                q >= 0,
        ;
    }
    let a: u128 = s1 as u128 * f;
    let v: u128 = if neg1 == neg2 {
        a + q
    } else if more {
        a - q - 1
    } else {
        a - q
    };
    proof {
        assert(a * w + q * w == (a + q) * w) by (nonlinear_arith);
        assert((a + q + 1) * w == (a + q) * w + w) by (nonlinear_arith);
        assert(a * w - q * w == (a - q) * w) by (nonlinear_arith);
        assert((a - q - 1) * w == (a - q) * w - w) by (nonlinear_arith);
        assert((a - q + 1) * w == (a - q) * w + w) by (nonlinear_arith);
        assert((a - q - 1) * w > 0) by (nonlinear_arith)
            requires
                a - q - 1 > 0,
                w > 0,
        ;
        assert(total == signed(neg1, magnitude_of(total)));
        lemma_brackets_whole(magnitude_of(total), v as int, k as nat, more);
    }
    let mag: u64 = nearest(v, k as i32, more, p, inf, Ghost(magnitude_of(total)), Ghost(1));
    (neg1, mag)
}

/// The rounded product of two finite magnitudes.
pub(crate) fn product(mag1: u64, mag2: u64, p: u32, inf: u64) -> (mag: u64)
    requires
        known_format(p, inf),
        mag1 < inf,
        mag2 < inf,
    ensures
        mag == at_most_infinity(
            nearest_magnitude(
                units(mag1 as int, p as nat) * units(mag2 as int, p as nat),
                pow2(unit_exponent(p)) as int,
                p as nat,
            ),
            inf,
        ),
{
    let (s1, k1) = parts(mag1, p, inf);
    let (s2, k2) = parts(mag2, p, inf);
    let e: i32 = if p == 53 {
        1074
    } else {
        149
    };
    let k: i32 = k1 as i32 + k2 as i32 - e;
    let ghost num = units(mag1 as int, p as nat) * units(mag2 as int, p as nat);
    let ghost den = pow2(unit_exponent(p)) as int;
    proof {
        lemma_large_powers();
        lemma_pow2_strictly_increases(24, 53);
        lemma_pow2_adds(53, 53);
        lemma_pow2_strictly_increases(106, 120);
        assert(s1 * s2 < pow2(106)) by (nonlinear_arith)
            requires
                s1 < pow2(53),
                s2 < pow2(53),
                pow2(106) == pow2(53) * pow2(53),
        ;
        let a = pow2(k1 as nat) as int;
        let b = pow2(k2 as nat) as int;
        let c = pow2(4096) as int;
        let w = pow2((k + 4096) as nat) as int;
        lemma_pow2_pos(unit_exponent(p));
        lemma_pow2_pos((k + 4096) as nat);
        lemma_pow2_adds(unit_exponent(p), (k + 4096) as nat);
        lemma_pow2_adds(k1 as nat, k2 as nat);
        lemma_pow2_adds((k1 + k2) as nat, 4096);
        assert(unit_exponent(p) + (k + 4096) as nat == (k1 + k2) as nat + 4096);
        assert(den * w == (a * b) * c);
        assert(num * c == (s1 * s2) * (den * w)) by (nonlinear_arith)
            requires
                num == (s1 * a) * (s2 * b),
                den * w == (a * b) * c,
        ;
        assert((s1 * s2) * (den * w) < (s1 * s2 + 1) * (den * w)) by (nonlinear_arith)
            requires
                den > 0,
                w > 0,
        ;
    }
    let v: u128 = s1 as u128 * s2 as u128;
    nearest(v, k, false, p, inf, Ghost(num), Ghost(den))
}

/// The magnitude nearest to a whole number.
pub(crate) fn whole(n: u64, p: u32, inf: u64) -> (mag: u64)
    requires
        known_format(p, inf),
    ensures
        mag == at_most_infinity(
            nearest_magnitude(n * pow2(unit_exponent(p)), 1, p as nat),
            inf,
        ),
{
    let e: i32 = if p == 53 {
        1074
    } else {
        149
    };
    proof {
        lemma_large_powers();
        lemma_pow2_pos(e as nat);
        assert(n * pow2(e as nat) < (n + 1) * pow2(e as nat)) by (nonlinear_arith)
            requires
                pow2(e as nat) > 0,
        ;
        lemma_brackets_whole(n * pow2(e as nat), n as int, e as nat, false);
    }
    nearest(n as u128, e, false, p, inf, Ghost(n * pow2(e as nat)), Ghost(1))
}

/// The rounded quotient of two finite magnitudes.
pub(crate) fn quotient(mag1: u64, mag2: u64, p: u32, inf: u64) -> (mag: u64)
    requires
        known_format(p, inf),
        mag1 < inf,
        0 < mag2 < inf,
    ensures
        mag == at_most_infinity(
            nearest_magnitude(
                units(mag1 as int, p as nat) * pow2(unit_exponent(p)),
                units(mag2 as int, p as nat),
                p as nat,
            ),
            inf,
        ),
{
    let (s1, k1) = parts(mag1, p, inf);
    let (s2, k2) = parts(mag2, p, inf);
    let e: i32 = if p == 53 {
        1074
    } else {
        149
    };
    let ghost u1 = units(mag1 as int, p as nat);
    let ghost den = units(mag2 as int, p as nat);
    let ghost num = u1 * pow2(e as nat);
    proof {
        lemma_large_powers();
        lemma_pow2_strictly_increases(24, 53);
        lemma_pow2_strictly_increases(53, 120);
    }
    if s1 == 0 {
        proof {
            lemma_pow2_pos(4096);
            lemma_pow2_pos(e as nat);
            assert(num == 0) by (nonlinear_arith)
                requires
                    u1 == 0,
                    num == u1 * pow2(e as nat),
            ;
            let w = den * pow2(4096);
            assert(0 * w == 0) by (nonlinear_arith);
            assert(1 * w > 0) by (nonlinear_arith)
                requires
                    w == den * pow2(4096),
                    den > 0,
                    pow2(4096) > 0,
            ;
            assert(0 * pow2(4096) == 0) by (nonlinear_arith);
        }
        return nearest(0, 0, false, p, inf, Ghost(num), Ghost(den));
    }
    // Bring the dividend to full length, so that the quotient has digits to spare.
    let n: u32 = bit_length(s1 as u128);
    proof {
        if n > 53 {
            lemma_pow2_strictly_increases(53, (n) as nat);
            if n > 54 {
                lemma_pow2_strictly_increases(53, (n - 1) as nat);
            }
        }
    }
    let z: u32 = 117 - n;
    let f: u128 = power_of_two(z);
    proof {
        lemma_pow2_adds(n as nat, z as nat);
        lemma_pow2_adds((n - 1) as nat, z as nat);
        lemma_pow2_strictly_increases(117, 120);
        let lo = pow2((n - 1) as nat) as int;
        let hi = pow2(n as nat) as int;
        assert(lo * f <= s1 * f < hi * f) by (nonlinear_arith)
            requires
                lo <= s1 < hi,
                f > 0,
        ;
        assert(pow2((n - 1 + z) as nat) == pow2(116));
        assert(pow2((n + z) as nat) == pow2(117));
    }
    let a: u128 = s1 as u128 * f;
    let b: u128 = s2 as u128;
    let v: u128 = a / b;
    let inexact: bool = a % b != 0;
    let k: i32 = k1 as i32 + e - k2 as i32 - z as i32;
    proof {
        lemma_fundamental_div_mod(a as int, b as int);
        let r = a as int % b as int;
        assert(v <= a) by (nonlinear_arith)
            requires
                a == b * v + r,
                r >= 0,
                b > 0,
                v >= 0,
        ;
        lemma_pow2_adds(63, 53);
        assert(v >= pow2(53)) by (nonlinear_arith)
            requires
                a == b * v + r,
                r < b,
                a >= pow2(116),
                pow2(116) == pow2(63) * pow2(53),
                pow2(63) == 0x8000_0000_0000_0000,
                pow2(53) == 0x20_0000_0000_0000,
                0 < b < pow2(53),
        ;
        let c = pow2(4096) as int;
        let w = pow2((k + 4096) as nat) as int;
        let w2 = pow2(k2 as nat) as int;
        let w1 = pow2(k1 as nat) as int;
        let we = pow2(e as nat) as int;
        lemma_pow2_pos((k + 4096) as nat);
        lemma_pow2_pos(k2 as nat);
        lemma_pow2_adds(k2 as nat, (k + 4096) as nat);
        lemma_pow2_adds(z as nat, k2 as nat + (k + 4096) as nat);
        lemma_pow2_adds(k1 as nat, e as nat);
        lemma_pow2_adds(k1 as nat + e as nat, 4096);
        assert(z as nat + (k2 as nat + (k + 4096) as nat) == k1 as nat + e as nat + 4096);
        let m = w2 * w;
        assert(f * m == (w1 * we) * c);
        assert(m > 0) by (nonlinear_arith)
            requires
                m == w2 * w,
                w2 > 0,
                w > 0,
        ;
        assert(num * c == a * m) by (nonlinear_arith)
            requires
                num == (s1 * w1) * we,
                a == s1 * f,
                f * m == (w1 * we) * c,
        ;
        assert(den * w == b * m) by (nonlinear_arith)
            requires
                den == b * w2,
                m == w2 * w,
        ;
        assert(v * (b * m) + r * m == a * m) by (nonlinear_arith)
            requires
                a == b * v + r,
        ;
        assert((v + 1) * (b * m) == v * (b * m) + b * m) by (nonlinear_arith);
        assert(0 <= r * m < b * m && (r * m == 0 <==> r == 0)) by (nonlinear_arith)
            requires
                0 <= r < b,
                m > 0,
        ;
    }
    nearest(v, k, inexact, p, inf, Ghost(num), Ghost(den))
}

} // verus!
