//! Numbers and columns as text.

use crate::number::double::{Double, INFINITE_MAGNITUDE};
use crate::number::exact::parts;
use crate::number::rounding::{
    lemma_large_powers, lemma_round_half_even_scales, power_of_two, round_half_even, units,
};
use crate::text::{all_digits, chars_of, digits_value, is_digit, joined, parsed_u64, string_of};
use vstd::arithmetic::div_mod::{lemma_fundamental_div_mod, lemma_fundamental_div_mod_converse};
use vstd::arithmetic::power::pow;
use vstd::arithmetic::power2::{
    lemma_pow2_adds, lemma_pow2_pos, lemma_pow2_strictly_increases, lemma_pow2_unfold, pow2,
};
use vstd::prelude::*;

verus! {

/// The character of a decimal digit.
pub open spec fn digit(d: int) -> char {
    (d + '0' as int) as char
}

/// The decimal digits of `n`, without leading zeros.
pub open spec fn decimal(n: nat) -> Seq<char>
    decreases n,
{
    if n < 10 {
        seq![digit(n as int)]
    } else {
        decimal(n / 10).push(digit((n % 10) as int))
    }
}

/// The last `places` decimal digits of `n`, with leading zeros.
pub open spec fn padded(n: nat, places: nat) -> Seq<char>
    decreases places,
{
    if places == 0 {
        Seq::empty()
    } else {
        padded(n / 10, (places - 1) as nat).push(digit((n % 10) as int))
    }
}

/// The digits of a number are read back as that number.
pub proof fn law_decimal_reads_back(n: nat)
    ensures
        all_digits(decimal(n)),
        digits_value(decimal(n)) == n,
        n <= u64::MAX ==> parsed_u64(decimal(n)) == Some(n as int),
    decreases n,
{
    let d = decimal(n);
    let last = digit((n % 10) as int);
    assert(is_digit(last) && last as int - '0' as int == n % 10);
    if n < 10 {
        assert(d.last() == last);
        assert(d.drop_last().len() == 0);
        assert(digits_value(d.drop_last()) == 0);
    } else {
        law_decimal_reads_back(n / 10);
        assert(d.drop_last() =~= decimal(n / 10));
        assert forall|i: int| 0 <= i < d.len() implies is_digit(#[trigger] d[i]) by {
            if i < d.len() - 1 {
                assert(d[i] == decimal(n / 10)[i]);
            }
        }
    }
    assert(is_digit(d[0]));
}

/// Different numbers stay different in front of a text that does not begin with a digit.
pub proof fn lemma_decimal_prefix(a: nat, b: nat, x: Seq<char>, y: Seq<char>)
    requires
        decimal(a) + x == decimal(b) + y,
        x.len() > 0 && !is_digit(x[0]),
        y.len() > 0 && !is_digit(y[0]),
    ensures
        a == b,
{
    law_decimal_reads_back(a);
    law_decimal_reads_back(b);
    let (p, q) = (decimal(a), decimal(b));
    let s = p + x;
    assert(s[p.len() as int] == x[0]);
    assert((q + y)[q.len() as int] == y[0]);
    if p.len() < q.len() {
        assert((q + y)[p.len() as int] == q[p.len() as int]);
    } else if q.len() < p.len() {
        assert(s[q.len() as int] == p[q.len() as int]);
    }
    assert(s.take(p.len() as int) =~= p);
    assert((q + y).take(q.len() as int) =~= q);
}

/// The number whose decimal digits, the last one first, are `d`.
spec fn from_digits(d: Seq<u8>) -> nat
    decreases d.len(),
{
    if d.len() == 0 {
        0
    } else {
        (d[0] + 10 * from_digits(d.drop_first())) as nat
    }
}

spec fn proper(d: Seq<u8>) -> bool {
    &&& d.len() > 0
    &&& forall|i: int| 0 <= i < d.len() ==> #[trigger] d[i] < 10
    &&& d.len() > 1 ==> d.last() > 0
}

proof fn lemma_from_digits_push(d: Seq<u8>, x: u8)
    ensures
        from_digits(d.push(x)) == from_digits(d) + x * pow(10, d.len()),
    decreases d.len(),
{
    reveal(pow);
    if d.len() == 0 {
        assert(d.push(x).drop_first() == Seq::<u8>::empty());
        assert(from_digits(Seq::<u8>::empty()) == 0);
        assert(d.push(x)[0] == x);
        assert(x * pow(10, d.len()) == x) by (nonlinear_arith)
            requires
                pow(10, d.len()) == 1,
        ;
    } else {
        let t = d.drop_first();
        assert(d.push(x).drop_first() == t.push(x));
        lemma_from_digits_push(t, x);
        let w = pow(10, t.len());
        assert(10 * (from_digits(t) + x * w) == 10 * from_digits(t) + x * (10 * w))
            by (nonlinear_arith);
        assert(pow(10, d.len()) == 10 * w);
        assert(d.push(x)[0] == d[0]);
    }
}

/// The text of digits that are stored the last one first.
proof fn lemma_decimal_of_digits(d: Seq<u8>)
    requires
        proper(d),
    ensures
        decimal(from_digits(d)) == Seq::new(d.len(), |i: int| digit(d[d.len() - 1 - i] as int)),
        d.len() > 1 || d[0] > 0 ==> from_digits(d) > 0,
    decreases d.len(),
{
    let text = Seq::new(d.len(), |i: int| digit(d[d.len() - 1 - i] as int));
    if d.len() == 1 {
        assert(from_digits(d.drop_first()) == 0);
        assert(decimal(from_digits(d)) =~= text);
    } else {
        let t = d.drop_first();
        assert(t.last() == d.last());
        assert forall|i: int| 0 <= i < t.len() implies #[trigger] t[i] < 10 by {
            assert(t[i] == d[i + 1]);
        }
        lemma_decimal_of_digits(t);
        let n = from_digits(d);
        assert(n / 10 == from_digits(t));
        assert(n % 10 == d[0]);
        assert(n >= 10);
        let inner = Seq::new(t.len(), |i: int| digit(t[t.len() - 1 - i] as int));
        assert(text =~= inner.push(digit(d[0] as int)));
    }
}

/// The decimal digits of `n`, the last one first.
fn digits_of(n: u128) -> (d: Vec<u8>)
    ensures
        proper(d@),
        from_digits(d@) == n,
{
    let mut d: Vec<u8> = Vec::new();
    let mut rest: u128 = n;
    reveal(pow);
    assert(rest * pow(10, 0) == rest) by (nonlinear_arith)
        requires
            pow(10, 0) == 1,
    ;
    while rest >= 10
        invariant
            from_digits(d@) + rest * pow(10, d@.len()) == n,
            forall|i: int| 0 <= i < d.len() ==> #[trigger] d@[i] < 10,
            d.len() > 0 ==> rest > 0,
        decreases rest,
    {
        let x: u8 = (rest % 10) as u8;
        proof {
            lemma_from_digits_push(d@, x);
            reveal(pow);
            let w = pow(10, d@.len());
            assert(pow(10, d@.len() + 1) == 10 * w);
            let q = rest / 10;
            assert(rest * w == x * w + q * (10 * w)) by (nonlinear_arith)
                requires
                    rest == 10 * q + x,
            ;
        }
        d.push(x);
        rest = rest / 10;
    }
    proof {
        lemma_from_digits_push(d@, rest as u8);
    }
    d.push(rest as u8);
    d
}

/// Doubles a number in place.
fn double_digits(d: &mut Vec<u8>)
    requires
        proper(old(d)@),
    ensures
        proper(final(d)@),
        from_digits(final(d)@) == 2 * from_digits(old(d)@),
{
    let ghost before = d@;
    let n: usize = d.len();
    let mut r: Vec<u8> = Vec::new();
    let mut carry: u8 = 0;
    let mut i: usize = 0;
    assert(before.take(0) == Seq::<u8>::empty());
    assert(carry * pow(10, 0) == 0) by (nonlinear_arith)
        requires
            carry == 0,
    ;
    while i < n
        invariant
            i <= n == before.len(),
            d@ == before,
            proper(before),
            r.len() == i,
            carry <= 1,
            from_digits(r@) + carry * pow(10, i as nat) == 2 * from_digits(before.take(i as int)),
            forall|j: int| 0 <= j < i ==> #[trigger] r@[j] < 10,
            i == n && n > 1 ==> r@.last() > 0 || carry > 0,
        decreases n - i,
    {
        let x: u8 = d[i];
        let y: u8 = 2 * x + carry;
        let c: u8 = if y >= 10 {
            1
        } else {
            0
        };
        let z: u8 = y - 10 * c;
        proof {
            let w = pow(10, i as nat);
            reveal(pow);
            assert(pow(10, (i + 1) as nat) == 10 * w);
            lemma_from_digits_push(r@, z);
            assert(before.take(i + 1) == before.take(i as int).push(x));
            lemma_from_digits_push(before.take(i as int), x);
            assert(z * w + c * (10 * w) == carry * w + 2 * (x * w)) by (nonlinear_arith)
                requires
                    z + 10 * c == 2 * x + carry,
            ;
        }
        r.push(z);
        carry = c;
        i = i + 1;
    }
    assert(before.take(n as int) == before);
    if carry > 0 {
        proof {
            lemma_from_digits_push(r@, carry);
        }
        r.push(carry);
    } else {
        assert(carry * pow(10, n as nat) == 0) by (nonlinear_arith)
            requires
                carry == 0,
        ;
    }
    *d = r;
}

/// The text of digits that are stored the last one first.
fn digits_text(d: &Vec<u8>) -> (r: Vec<char>)
    requires
        proper(d@),
    ensures
        r@ == decimal(from_digits(d@)),
{
    let mut r: Vec<char> = Vec::new();
    let mut i: usize = d.len();
    while i > 0
        invariant
            proper(d@),
            i <= d.len(),
            r.len() == d.len() - i,
            forall|j: int| 0 <= j < r.len() ==> #[trigger] r@[j] == digit(d@[d.len() - 1 - j] as int),
        decreases i,
    {
        i = i - 1;
        let x: u8 = d[i];
        r.push((x + 48) as char);
    }
    proof {
        lemma_decimal_of_digits(d@);
        assert(r@ =~= decimal(from_digits(d@)));
    }
    r
}

pub fn decimal_chars(n: u128) -> (r: Vec<char>)
    ensures
        r@ == decimal(n as nat),
{
    let d = digits_of(n);
    digits_text(&d)
}

pub fn decimal_text(n: u64) -> (r: String)
    ensures
        r@ == decimal(n as nat),
{
    let v = decimal_chars(n as u128);
    string_of(&v)
}

/// `num / den` in decimal with `places` digits after the point, correctly rounded.
pub open spec fn fixed(num: int, den: int, places: nat) -> Seq<char> {
    let n = round_half_even(num * pow(10, places), den);
    let whole = decimal((n / pow(10, places)) as nat);
    if places == 0 {
        whole
    } else {
        whole.push('.') + padded((n % pow(10, places)) as nat, places)
    }
}

/// A number in decimal with `places` digits after the point.
pub open spec fn fixed_text(x: Double, places: nat) -> Seq<char> {
    if x.nan() {
        "NaN"@
    } else {
        (if x.negative() {
            seq!['-']
        } else {
            Seq::empty()
        }) + (if x.infinite() {
            "inf"@
        } else {
            fixed(units(x.magnitude(), 53), pow2(1074) as int, places)
        })
    }
}

/// `fixed_text` with a sign in front of every number.
pub open spec fn signed_text(x: Double, places: nat) -> Seq<char> {
    if x.nan() || x.negative() {
        fixed_text(x, places)
    } else {
        seq!['+'] + fixed_text(x, places)
    }
}

fn power_of_ten(places: u32) -> (r: u128)
    requires
        places <= 6,
    ensures
        r == pow(10, places as nat),
        0 < r <= 1_000_000,
{
    let mut r: u128 = 1;
    let mut i: u32 = 0;
    reveal(pow);
    while i < places
        invariant
            i <= places <= 6,
            r == pow(10, i as nat),
            i == 0 ==> r == 1,
            i == 1 ==> r == 10,
            i == 2 ==> r == 100,
            i == 3 ==> r == 1_000,
            i == 4 ==> r == 10_000,
            i == 5 ==> r == 100_000,
            i == 6 ==> r == 1_000_000,
        decreases places - i,
    {
        proof {
            reveal(pow);
            assert(pow(10, (i + 1) as nat) == 10 * pow(10, i as nat));
        }
        r = 10 * r;
        i = i + 1;
    }
    r
}

fn push_padded(r: &mut Vec<char>, n: u128, places: u32)
    requires
        places <= 6,
    ensures
        final(r)@ == old(r)@ + padded(n as nat, places as nat),
    decreases places,
{
    if places > 0 {
        push_padded(r, n / 10, places - 1);
        let x: u8 = (n % 10) as u8;
        r.push((x + 48) as char);
    }
}

fn push_all(r: &mut Vec<char>, more: &Vec<char>)
    ensures
        final(r)@ == old(r)@ + more@,
{
    let ghost start = r@;
    let mut i: usize = 0;
    while i < more.len()
        invariant
            i <= more.len(),
            r@ == start + more@.take(i as int),
        decreases more.len() - i,
    {
        r.push(more[i]);
        i = i + 1;
    }
    assert(more@.take(more.len() as int) == more@);
}

/// Appends a finite magnitude in decimal with `places` digits after the point.
fn push_fixed(r: &mut Vec<char>, mag: u64, places: u32)
    requires
        places <= 6,
        mag < INFINITE_MAGNITUDE,
    ensures
        final(r)@ == old(r)@ + fixed(units(mag as int, 53), pow2(1074) as int, places as nat),
{
    let (s, k) = parts(mag, 53, INFINITE_MAGNITUDE);
    let ten: u128 = power_of_ten(places);
    let ghost num = units(mag as int, 53) * ten;
    let ghost den = pow2(1074) as int;
    let ghost start = r@;
    proof {
        lemma_large_powers();
        lemma_pow2_pos(1074);
    }
    if k >= 1074 {
        // A whole number: double the significand's digits.
        let mut d = digits_of(s as u128);
        let mut i: u32 = 1074;
        assert(s * pow2(0) == s) by (nonlinear_arith)
            requires
                pow2(0) == 1,
        ;
        while i < k
            invariant
                1074 <= i <= k,
                proper(d@),
                from_digits(d@) == s * pow2((i - 1074) as nat),
            decreases k - i,
        {
            proof {
                lemma_pow2_unfold((i + 1 - 1074) as nat);
                let w = pow2((i - 1074) as nat) as int;
                assert(s * (2 * w) == 2 * (s * w)) by (nonlinear_arith);
            }
            double_digits(&mut d);
            i = i + 1;
        }
        let whole = digits_text(&d);
        push_all(r, &whole);
        proof {
            let w = from_digits(d@) as int;
            lemma_pow2_adds((k - 1074) as nat, 1074);
            assert(num == (w * ten) * den + 0) by (nonlinear_arith)
                requires
                    num == (s * pow2(k as nat)) * ten,
                    w == s * pow2((k - 1074) as nat),
                    pow2(k as nat) == pow2((k - 1074) as nat) * den,
            ;
            lemma_fundamental_div_mod_converse(num, den, w * ten, 0);
            lemma_fundamental_div_mod_converse(w * ten, ten as int, w, 0);
        }
        if places > 0 {
            r.push('.');
            push_padded(r, 0, places);
        }
        return ;
    }
    let sh: u32 = 1074 - k;
    let ghost w = pow2(k as nat) as int;
    let ghost b = pow2(sh as nat) as int;
    assert(s * ten < 0x20_0000_0000_0000 * 1_000_001) by (nonlinear_arith)
        requires
            0 <= s < 0x20_0000_0000_0000,
            0 < ten <= 1_000_000,
    ;
    let a: u128 = s as u128 * ten;
    proof {
        lemma_pow2_pos(k as nat);
        lemma_pow2_pos(sh as nat);
        lemma_pow2_adds(sh as nat, k as nat);
        assert(num == a * w) by (nonlinear_arith)
            requires
                num == (s * w) * ten,
                a == s * ten,
        ;
        assert(den == b * w);
        lemma_round_half_even_scales(a as int, b, w);
    }
    let n: u128 = if sh >= 120 {
        proof {
            if sh > 120 {
                lemma_pow2_strictly_increases(120, sh as nat);
            }
            lemma_fundamental_div_mod_converse(a as int, b, 0, a as int);
        }
        0
    } else {
        let p: u128 = power_of_two(sh);
        proof {
            lemma_pow2_strictly_increases(sh as nat, 120);
            lemma_fundamental_div_mod(a as int, p as int);
        }
        let q: u128 = a / p;
        let rest: u128 = a % p;
        proof {
            assert(q <= a) by (nonlinear_arith)
                requires
                    a == p * q + rest,
                    p > 0,
                    q >= 0,
                    rest >= 0,
            ;
        }
        if 2 * rest < p || (2 * rest == p && q % 2 == 0) {
            q
        } else {
            q + 1
        }
    };
    let whole = decimal_chars(n / ten);
    push_all(r, &whole);
    if places > 0 {
        r.push('.');
        push_padded(r, n % ten, places);
    }
    assert(places == 0 ==> r@ == start + decimal((n / ten) as nat));
}

/// A number in decimal with `places` digits after the point.
pub fn format_fixed(x: Double, places: u32) -> (r: String)
    requires
        places <= 6,
    ensures
        r@ == fixed_text(x, places as nat),
{
    if x.is_nan() {
        return "NaN".to_owned();
    }
    let negative: bool = x.bits >= 0x8000_0000_0000_0000;
    let mag: u64 = if negative {
        x.bits - 0x8000_0000_0000_0000
    } else {
        x.bits
    };
    let mut v: Vec<char> = Vec::new();
    if negative {
        v.push('-');
    }
    assert(v@ == if x.negative() {
        seq!['-']
    } else {
        Seq::empty()
    });
    if mag == INFINITE_MAGNITUDE {
        let t = chars_of("inf");
        push_all(&mut v, &t);
    } else {
        push_fixed(&mut v, mag, places);
    }
    string_of(&v)
}

/// `format_fixed` with a sign in front of every number.
pub fn format_signed(x: Double, places: u32) -> (r: String)
    requires
        places <= 6,
    ensures
        r@ == signed_text(x, places as nat),
{
    let t = format_fixed(x, places);
    if x.is_nan() || x.bits >= 0x8000_0000_0000_0000 {
        t
    } else {
        let mut r: String = String::new();
        r.push('+');
        r.append(t.as_str());
        assert(r@ == seq!['+'] + t@);
        r
    }
}

/// `n` copies of a character.
pub open spec fn copies(c: char, n: int) -> Seq<char> {
    Seq::new(
        if n < 0 {
            0
        } else {
            n as nat
        },
        |i: int| c,
    )
}

/// `s` filled up with spaces behind it to `width` characters.
pub open spec fn left_aligned(s: Seq<char>, width: int) -> Seq<char> {
    s + copies(' ', width - s.len())
}

/// `s` filled up with spaces in front of it to `width` characters.
pub open spec fn right_aligned(s: Seq<char>, width: int) -> Seq<char> {
    copies(' ', width - s.len()) + s
}

pub fn repeated(c: char, n: usize) -> (r: String)
    ensures
        r@ == copies(c, n as int),
{
    let mut r: String = String::new();
    let mut i: usize = 0;
    while i < n
        invariant
            i <= n,
            r@ == copies(c, i as int),
        decreases n - i,
    {
        r.push(c);
        i = i + 1;
        assert(r@ =~= copies(c, i as int));
    }
    r
}

fn missing(s: &str, width: usize) -> (n: usize)
    ensures
        copies(' ', n as int) == copies(' ', width - s@.len()),
{
    let len: usize = chars_of(s).len();
    if len < width {
        width - len
    } else {
        0
    }
}

/// `s` filled up with spaces behind it to `width` characters.
pub fn align_left(s: &str, width: usize) -> (r: String)
    ensures
        r@ == left_aligned(s@, width as int),
{
    let fill = repeated(' ', missing(s, width));
    joined(s, fill.as_str())
}

/// `s` filled up with spaces in front of it to `width` characters.
pub fn align_right(s: &str, width: usize) -> (r: String)
    ensures
        r@ == right_aligned(s@, width as int),
{
    let fill = repeated(' ', missing(s, width));
    joined(fill.as_str(), s)
}

} // verus!
