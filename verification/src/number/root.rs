//! Correctly rounded square roots.

use super::exact::{at_most_infinity, parts};
use super::rounding::{
    bit_length, brackets, lemma_large_powers, lemma_nearest_of_bracket, nearest, nearest_magnitude,
    power_of_two, rounds_up, units,
};
use vstd::arithmetic::div_mod::lemma_fundamental_div_mod;
use vstd::arithmetic::power2::{
    lemma2_to64, lemma_pow2_adds, lemma_pow2_pos, lemma_pow2_strictly_increases, lemma_pow2_unfold,
    pow2,
};
use vstd::prelude::*;

verus! {

/// Whether `s` is the integer nearest to the square root of `num / den`; of two that are equally
/// near, the even one.
pub open spec fn is_nearest_root(num: int, den: int, s: int) -> bool {
    &&& s >= 0
    &&& s == 0 || ((2 * s - 1) * (2 * s - 1)) * den < 4 * num || (((2 * s - 1) * (2 * s - 1)) * den
        == 4 * num && s % 2 == 0)
    &&& 4 * num < ((2 * s + 1) * (2 * s + 1)) * den || (4 * num == ((2 * s + 1) * (2 * s + 1)) * den
        && s % 2 == 0)
}

/// The integer nearest to the square root of `num / den`.
pub open spec fn root_half_even(num: int, den: int) -> int {
    choose|s: int| is_nearest_root(num, den, s)
}

#[via_fn]
proof fn nearest_root_magnitude_decreases(num: int, den: int, p: nat) {
    if p > 0 && den > 0 && num >= (pow2(p) * pow2(p)) * den {
        lemma_pow2_unfold(p);
        lemma_pow2_pos((p - 1) as nat);
        let h = pow2(p) as int;
        assert(num >= 4 * den) by (nonlinear_arith)
            requires
                den > 0,
                h >= 2,
                num >= (h * h) * den,
        ;
    }
}

/// The magnitude of the number of precision `p` that is nearest to the square root of
/// `num / den` square units.
pub open spec fn nearest_root_magnitude(num: int, den: int, p: nat) -> int
    decreases num - den,
    via nearest_root_magnitude_decreases
{
    if p == 0 || den <= 0 || num < (pow2(p) * pow2(p)) * den {
        root_half_even(num, den)
    } else {
        pow2((p - 1) as nat) + nearest_root_magnitude(num, 4 * den, p)
    }
}

proof fn lemma_nearest_root_unique(num: int, den: int, s: int)
    requires
        den > 0,
        is_nearest_root(num, den, s),
    ensures
        root_half_even(num, den) == s,
{
    let o = root_half_even(num, den);
    assert(is_nearest_root(num, den, o));
    if o != s {
        let lo = if o < s {
            o
        } else {
            s
        };
        let hi = if o < s {
            s
        } else {
            o
        };
        let a = 2 * lo + 1;
        let b = 2 * hi - 1;
        assert((a * a) * den <= (b * b) * den) by (nonlinear_arith)
            requires
                0 <= a <= b,
                den > 0,
        ;
        assert((a * a) * den == (b * b) * den);
        assert(a == b) by (nonlinear_arith)
            requires
                (a * a) * den == (b * b) * den,
                0 <= a <= b,
                den > 0,
        ;
        assert(false);
    }
}

pub proof fn lemma_root_at_scale(num: int, den: int, p: nat, k: nat)
    requires
        p >= 1,
        den > 0,
        num < (pow2(p) * pow2(p)) * (den * pow2(2 * k)),
        k == 0 || num >= (pow2((p - 1) as nat) * pow2((p - 1) as nat)) * (den * pow2(2 * k)),
    ensures
        nearest_root_magnitude(num, den, p) == k * pow2((p - 1) as nat) + root_half_even(
            num,
            den * pow2(2 * k),
        ),
    decreases k,
{
    lemma2_to64();
    let h = pow2((p - 1) as nat) as int;
    let hp = pow2(p) as int;
    if k == 0 {
        assert(den * pow2(2 * k) == den) by (nonlinear_arith)
            requires
                pow2(2 * k) == 1,
        ;
    } else {
        lemma_pow2_unfold(p);
        lemma_pow2_pos((p - 1) as nat);
        lemma_pow2_adds((2 * (k - 1)) as nat, 2);
        lemma_pow2_pos((2 * (k - 1)) as nat);
        let w = pow2((2 * (k - 1)) as nat) as int;
        assert((2 * (k - 1)) as nat + 2 == 2 * k);
        assert(pow2(2 * k) == 4 * w);
        assert(den * (4 * w) == (4 * den) * w) by (nonlinear_arith);
        assert(num >= (hp * hp) * den) by (nonlinear_arith)
            requires
                num >= (h * h) * (den * (4 * w)),
                hp == 2 * h,
                h > 0,
                w > 0,
                den > 0,
        ;
        lemma_root_at_scale(num, 4 * den, p, (k - 1) as nat);
        assert(k * h == h + (k - 1) * h) by (nonlinear_arith);
        assert(nearest_root_magnitude(num, den, p) == h + nearest_root_magnitude(num, 4 * den, p));
    }
}

/// The whole part of a square root.
fn whole_root(n: u128) -> (v: u128)
    requires
        pow2(112) <= n < pow2(114),
    ensures
        v * v <= n < (v + 1) * (v + 1),
        pow2(56) <= v < pow2(57),
{
    let mut v: u128 = 0;
    let mut bit: u128 = power_of_two(57);
    proof {
        lemma_pow2_adds(57, 57);
        lemma_pow2_adds(56, 56);
        lemma_pow2_pos(57);
        lemma_large_powers();
        lemma_pow2_strictly_increases(57, 63);
        lemma_pow2_unfold(57);
        assert(0 * 0 == 0) by (nonlinear_arith);
    }
    while bit > 1
        invariant
            v * v <= n < (v + bit) * (v + bit),
            0 < bit <= pow2(57),
            v < pow2(57),
            pow2(57) < 0x8000_0000_0000_0000,
            n < pow2(57) * pow2(57),
            bit == 1 || bit % 2 == 0,
            exists|e: nat| bit == pow2(e),
        decreases bit,
    {
        proof {
            let e: nat = choose|e: nat| bit == pow2(e);
            lemma2_to64();
            if e > 0 {
                lemma_pow2_unfold(e);
                assert(bit / 2 == pow2((e - 1) as nat));
                if e > 1 {
                    lemma_pow2_unfold((e - 1) as nat);
                }
            }
        }
        let half: u128 = bit / 2;
        let next: u128 = v + half;
        assert(next * next < 0x1_0000_0000_0000_0000 * 0x1_0000_0000_0000_0000) by (nonlinear_arith)
            requires
                0 <= next < 0x1_0000_0000_0000_0000,
        ;
        if next * next <= n {
            assert(next < pow2(57)) by (nonlinear_arith)
                requires
                    next * next <= n,
                    n < pow2(57) * pow2(57),
                    next >= 0,
                    pow2(57) > 0,
            ;
            v = next;
        }
        bit = half;
    }
    proof {
        let h = pow2(56) as int;
        assert(v >= h) by (nonlinear_arith)
            requires
                h * h <= n,
                n < (v + 1) * (v + 1),
                v >= 0,
                h >= 0,
        ;
    }
    v
}

proof fn lemma_root_of_digits(n: int, v: int, t: nat, inexact: bool)
    requires
        t >= 1,
        v >= 0,
        v * v <= n < (v + 1) * (v + 1),
        inexact <==> n != v * v,
    ensures
        is_nearest_root(
            n,
            (pow2(t) * pow2(t)) as int,
            v / (pow2(t) as int) + if rounds_up(v, t, inexact) {
                1int
            } else {
                0int
            },
        ),
{
    let b = pow2(t) as int;
    let s = v / b;
    let rest = v % b;
    lemma_pow2_unfold(t);
    lemma_pow2_pos((t - 1) as nat);
    lemma_fundamental_div_mod(v, b);
    let d = b * b;
    let a = 2 * s + 1;
    assert(s >= 0) by (nonlinear_arith)
        requires
            v == b * s + rest,
            0 <= rest < b,
            v >= 0,
            b > 0,
    ;
    assert(a * b == 2 * (b * s) + b) by (nonlinear_arith)
        requires
            a == 2 * s + 1,
    ;
    if rounds_up(v, t, inexact) {
        let c = 2 * (s + 1) + 1;
        assert(c * b == 2 * (b * s) + 3 * b) by (nonlinear_arith)
            requires
                c == 2 * (s + 1) + 1,
        ;
        assert((2 * (s + 1) - 1) == a);
        if 2 * rest > b {
            assert((a * a) * d < 4 * n) by (nonlinear_arith)
                requires
                    d == b * b,
                    2 * v > a * b,
                    a >= 0,
                    b > 0,
                    v * v <= n,
            {
                assert((2 * v) * (2 * v) > (a * b) * (a * b));
                assert((a * b) * (a * b) == (a * a) * (b * b));
            }
        } else {
            assert((a * a) * d == 4 * (v * v)) by (nonlinear_arith)
                requires
                    d == b * b,
                    2 * v == a * b,
            {
                assert((2 * v) * (2 * v) == (a * b) * (a * b));
                assert((a * b) * (a * b) == (a * a) * (b * b));
            }
        }
        assert(4 * n < (c * c) * d) by (nonlinear_arith)
            requires
                d == b * b,
                2 * (v + 1) <= c * b,
                c >= 0,
                v >= 0,
                b > 0,
                n < (v + 1) * (v + 1),
        {
            assert((2 * (v + 1)) * (2 * (v + 1)) <= (c * b) * (c * b));
            assert((c * b) * (c * b) == (c * c) * (b * b));
        }
    } else {
        let c = 2 * s - 1;
        assert(c * b == 2 * (b * s) - b) by (nonlinear_arith)
            requires
                c == 2 * s - 1,
        ;
        if s > 0 {
            assert((c * c) * d < 4 * n) by (nonlinear_arith)
                requires
                    d == b * b,
                    2 * v > c * b,
                    c >= 0,
                    b > 0,
                    v * v <= n,
            {
                assert((2 * v) * (2 * v) > (c * b) * (c * b));
                assert((c * b) * (c * b) == (c * c) * (b * b));
            }
        }
        if 2 * rest < b {
            assert(4 * n < (a * a) * d) by (nonlinear_arith)
                requires
                    d == b * b,
                    2 * (v + 1) <= a * b,
                    a >= 0,
                    v >= 0,
                    b > 0,
                    n < (v + 1) * (v + 1),
            {
                assert((2 * (v + 1)) * (2 * (v + 1)) <= (a * b) * (a * b));
                assert((a * b) * (a * b) == (a * a) * (b * b));
            }
        } else {
            assert((a * a) * d == 4 * (v * v)) by (nonlinear_arith)
                requires
                    d == b * b,
                    2 * v == a * b,
            {
                assert((2 * v) * (2 * v) == (a * b) * (a * b));
                assert((a * b) * (a * b) == (a * a) * (b * b));
            }
        }
    }
}

/// The rounded square root of a finite binary64 magnitude.
pub(crate) fn root(mag: u64) -> (r: u64)
    requires
        mag < 0x7ff0_0000_0000_0000,
    ensures
        r == at_most_infinity(
            nearest_root_magnitude(units(mag as int, 53) * pow2(1074), 1, 53),
            0x7ff0_0000_0000_0000,
        ),
{
    let inf: u64 = 0x7ff0_0000_0000_0000;
    let (s, k) = parts(mag, 53, inf);
    let ghost num = units(mag as int, 53) * pow2(1074);
    proof {
        lemma_large_powers();
        lemma_pow2_strictly_increases(53, 120);
        assert(1 * pow2(0) == 1);
    }
    if s == 0 {
        proof {
            assert(num == 0) by (nonlinear_arith)
                requires
                    num == 0 * pow2(1074),
            ;
            assert((pow2(53) * pow2(53)) * 1 > 0) by (nonlinear_arith)
                requires
                    pow2(53) > 0,
            ;
            assert(((2 * 0 + 1) * (2 * 0 + 1)) * 1 == 1int) by (nonlinear_arith);
            assert(is_nearest_root(0, 1, 0));
            lemma_nearest_root_unique(0, 1, 0);
        }
        return 0;
    }
    let n: u32 = bit_length(s as u128);
    proof {
        if n > 53 {
            lemma_pow2_strictly_increases(53, n as nat);
            if n > 54 {
                lemma_pow2_strictly_increases(53, (n - 1) as nat);
            }
        }
    }
    let longest: u32 = 114 - n;
    let z: u32 = if (k + longest) % 2 == 0 {
        longest
    } else {
        longest - 1
    };
    let f: u128 = power_of_two(z);
    proof {
        lemma_pow2_adds(n as nat, z as nat);
        lemma_pow2_adds((n - 1) as nat, z as nat);
        lemma_pow2_strictly_increases(112, 113);
        lemma_pow2_strictly_increases(113, 114);
        lemma_pow2_strictly_increases(114, 120);
        let lo = pow2((n - 1) as nat) as int;
        let hi = pow2(n as nat) as int;
        assert(lo * f <= s * f < hi * f) by (nonlinear_arith)
            requires
                lo <= s < hi,
                f > 0,
        ;
    }
    let a: u128 = s as u128 * f;
    let v: u128 = whole_root(a);
    proof {
        lemma_pow2_strictly_increases(57, 63);
        assert(v * v < 0x1_0000_0000_0000_0000 * 0x1_0000_0000_0000_0000) by (nonlinear_arith)
            requires
                0 <= v < 0x1_0000_0000_0000_0000,
        ;
    }
    let inexact: bool = v * v != a;
    let j: i32 = (k as i32 + 1074 - z as i32) / 2;
    let ghost extra: int = if inexact {
        1
    } else {
        0
    };
    let ghost near = (2 * v + extra) * pow2(j as nat);
    proof {
        lemma_pow2_adds(53, 4);
        lemma_pow2_adds(52, 4);
        lemma_pow2_strictly_increases(53, 56);
        lemma_pow2_strictly_increases(57, 120);
        lemma2_to64();
        // `near / 2` stands for the root: it lies in the same bracket.
        let w = pow2(j as nat) as int;
        let c = pow2(4096) as int;
        lemma_pow2_pos(j as nat);
        lemma_pow2_pos(4096);
        lemma_pow2_adds(j as nat, 4096);
        assert(2 * (w * c) == 2 * pow2((j + 4096) as nat));
        assert(near * c == v * (2 * (w * c)) + extra * (w * c)) by (nonlinear_arith)
            requires
                near == (2 * v + extra) * w,
        ;
        assert((v + 1) * (2 * (w * c)) == v * (2 * (w * c)) + 2 * (w * c)) by (nonlinear_arith);
        assert(w * c > 0) by (nonlinear_arith)
            requires
                w > 0,
                c > 0,
        ;
        assert(0 <= extra * (w * c) < 2 * (w * c)) by (nonlinear_arith)
            requires
                w * c > 0,
                extra == 0 || extra == 1,
        ;
        assert(extra * (w * c) == 0 <==> extra == 0) by (nonlinear_arith)
            requires
                w * c > 0,
                extra == 0 || extra == 1,
        ;
        assert(brackets(near, 2, v as int, j as int, inexact));
        let b = pow2(4) as int;
        assert(b == 16);
        assert(v as int / b < pow2(53));
        assert(v as int / b >= pow2(52));
        lemma_nearest_of_bracket(near, 2, v as int, j as int, inexact, 53, 4);
        // The root itself rounds in the same way.
        lemma_root_of_digits(a as int, v as int, 4, inexact);
        let kk = (j + 4) as nat;
        let q = pow2(2 * j as nat) as int;
        lemma_pow2_pos(2 * j as nat);
        lemma_pow2_adds(z as nat, 2 * j as nat);
        lemma_pow2_adds(k as nat, 1074);
        assert(z as nat + 2 * j as nat == k as nat + 1074);
        assert(num == a * q) by (nonlinear_arith)
            requires
                num == (s * pow2(k as nat)) * pow2(1074),
                a == s * f,
                f * q == pow2(k as nat) * pow2(1074),
        ;
        lemma_pow2_adds(2 * j as nat, 8);
        assert(2 * j as nat + 8 == 2 * kk);
        assert(1 * pow2(2 * kk) == q * 256);
        let r = v as int / b + if rounds_up(v as int, 4, inexact) {
            1int
        } else {
            0int
        };
        lemma_nearest_root_scales(a as int, 256, q, r);
        assert(pow2(4) * pow2(4) == 256);
        assert(256 * q == q * 256);
        lemma_nearest_root_unique(num, q * 256, r);
        lemma_pow2_adds(57, 57);
        lemma_pow2_adds(56, 56);
        lemma_pow2_adds(53, 53);
        lemma_pow2_adds(52, 52);
        lemma_pow2_adds(106, 8);
        lemma_pow2_adds(104, 8);
        assert(num < (pow2(53) * pow2(53)) * (1 * pow2(2 * kk))) by (nonlinear_arith)
            requires
                num == a * q,
                1 * pow2(2 * kk) == q * 256,
                a < pow2(114),
                pow2(114) == pow2(106) * 256,
                pow2(106) == pow2(53) * pow2(53),
                q > 0,
        ;
        assert(num >= (pow2(52) * pow2(52)) * (1 * pow2(2 * kk))) by (nonlinear_arith)
            requires
                num == a * q,
                1 * pow2(2 * kk) == q * 256,
                a >= pow2(112),
                pow2(112) == pow2(104) * 256,
                pow2(104) == pow2(52) * pow2(52),
                q > 0,
        ;
        lemma_root_at_scale(num, 1, 53, kk);
        assert(nearest_root_magnitude(num, 1, 53) == nearest_magnitude(near, 2, 53));
    }
    nearest(v, j, inexact, 53, inf, Ghost(near), Ghost(2))
}

proof fn lemma_nearest_root_scales(num: int, den: int, c: int, s: int)
    requires
        is_nearest_root(num, den, s),
        c > 0,
    ensures
        is_nearest_root(num * c, den * c, s),
{
    let a = (2 * s - 1) * (2 * s - 1);
    let b = (2 * s + 1) * (2 * s + 1);
    assert(a * (den * c) == (a * den) * c) by (nonlinear_arith);
    assert(b * (den * c) == (b * den) * c) by (nonlinear_arith);
    assert(4 * (num * c) == (4 * num) * c) by (nonlinear_arith);
    assert(a * den < 4 * num ==> (a * den) * c < (4 * num) * c) by (nonlinear_arith)
        requires
            c > 0,
    ;
    assert(4 * num < b * den ==> (4 * num) * c < (b * den) * c) by (nonlinear_arith)
        requires
            c > 0,
    ;
}

} // verus!
