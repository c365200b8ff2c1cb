//! Elapsed time.

use crate::number::double::Double;
use crate::number::error::{
    distance, law_integer_is_rounded, law_product_is_rounded, law_quotient_is_rounded,
    law_sum_is_rounded, lemma_near_adds, lemma_near_back, lemma_near_chain, lemma_near_scales,
    lemma_within_range, near, size,
};
use crate::number::laws::{
    law_integers_are_exact, law_quotient_sign, lemma_nearest_sign, lemma_plus_keeps_sign,
    lemma_times_keeps_sign, lemma_units_zero,
};
use vstd::arithmetic::power2::{lemma_pow2_pos, pow2};
use vstd::prelude::*;

verus! {

/// A span of time: whole seconds, and nanoseconds below one second.
#[derive(Clone, Copy, Debug, PartialEq, Eq, Structural)]
pub struct Span {
    pub secs: u64,
    pub nanos: u32,
}

impl Span {
    /// The span in nanoseconds.
    pub open spec fn total_nanos(self) -> int {
        self.secs * 1_000_000_000 + self.nanos
    }

    /// The span in seconds.
    pub open spec fn seconds(self) -> Double {
        Double::integer(self.secs as int).plus(
            Double::integer(self.nanos as int).over(Double::integer(1_000_000_000)),
        )
    }

    /// The span in milliseconds.
    pub open spec fn milliseconds(self) -> Double {
        self.seconds().times(Double::integer(1000))
    }

    /// The span in microseconds.
    pub open spec fn microseconds(self) -> Double {
        self.seconds().times(Double::integer(1_000_000))
    }

    pub fn as_us(self) -> (r: Double)
        ensures
            r == self.microseconds(),
    {
        self.as_secs().mul(Double::from_u64(1_000_000))
    }

    pub fn as_secs(self) -> (r: Double)
        ensures
            r == self.seconds(),
    {
        let nanos: Double = Double::from_u64(self.nanos as u64);
        Double::from_u64(self.secs).add(nanos.div(Double::from_u64(1_000_000_000)))
    }

    pub fn as_ms(self) -> (r: Double)
        ensures
            r == self.milliseconds(),
    {
        self.as_secs().mul(Double::from_u64(1000))
    }
}

/// How long to wait before the next sample: an interval, or what remains of the time if that is
/// shorter. Nothing where the time is over.
pub open spec fn pause(remaining: Span, interval: Span) -> Option<Span> {
    if remaining.secs == 0 && remaining.nanos == 0 {
        None
    } else if remaining.secs < interval.secs || (remaining.secs == interval.secs && remaining.nanos
        < interval.nanos) {
        Some(remaining)
    } else {
        Some(interval)
    }
}

pub fn next_pause(remaining: Span, interval: Span) -> (r: Option<Span>)
    ensures
        r == pause(remaining, interval),
{
    if remaining.secs == 0 && remaining.nanos == 0 {
        None
    } else if remaining.secs < interval.secs || (remaining.secs == interval.secs && remaining.nanos
        < interval.nanos) {
        Some(remaining)
    } else {
        Some(interval)
    }
}

/// A wait goes neither beyond the time that remains nor beyond the interval, and there is one
/// exactly as long as time remains.
pub proof fn law_pause_is_bounded(remaining: Span, interval: Span)
    requires
        remaining.nanos < 1_000_000_000,
        interval.nanos < 1_000_000_000,
    ensures
        pause(remaining, interval) is Some <==> remaining.total_nanos() > 0,
        pause(remaining, interval) matches Some(p) ==> p.total_nanos() <= remaining.total_nanos()
            && p.total_nanos() <= interval.total_nanos() && (p == remaining || p == interval),
{
}

proof fn lemma_positive_integer(n: int)
    requires
        0 < n <= 0x20_0000_0000_0000,
    ensures
        Double::integer(n).finite(),
        !Double::integer(n).zero(),
        !Double::integer(n).negative(),
{
    let u = pow2(1074) as int;
    law_integers_are_exact(n);
    lemma_units_zero();
    lemma_pow2_pos(1074);
    assert(n * u > 0) by (nonlinear_arith)
        requires
            n > 0,
            u > 0,
    ;
    lemma_nearest_sign(false, n * u, 1);
}

/// A span is a number that is not negative, in seconds and in milliseconds.
pub proof fn law_spans_are_numbers(span: Span)
    ensures
        !span.seconds().nan() && span.seconds().rank() >= 0,
        !span.milliseconds().nan() && span.milliseconds().rank() >= 0,
{
    let u = pow2(1074) as int;
    let (a, b) = (span.secs as int, span.nanos as int);
    lemma_pow2_pos(1074);
    assert(a * u >= 0 && b * u >= 0) by (nonlinear_arith)
        requires
            a >= 0,
            b >= 0,
            u > 0,
    ;
    lemma_nearest_sign(false, a * u, 1);
    lemma_nearest_sign(false, b * u, 1);
    lemma_positive_integer(1_000_000_000);
    lemma_positive_integer(1000);
    let whole = Double::integer(a);
    let part = Double::integer(b).over(Double::integer(1_000_000_000));
    law_quotient_sign(Double::integer(b), Double::integer(1_000_000_000));
    lemma_plus_keeps_sign(whole, part);
    lemma_times_keeps_sign(span.seconds(), Double::integer(1000));
}

/// A span is as many seconds as it is: its number of seconds is the exact one but for three parts
/// in `2^53`, and its number of milliseconds or microseconds but for five. A unit of a number is
/// `2^-1074`.
pub proof fn law_spans_are_measured(span: Span)
    requires
        span.nanos < 1_000_000_000,
    ensures
        span.seconds().finite(),
        span.milliseconds().finite(),
        span.microseconds().finite(),
        near(1_000_000_000 * span.seconds().value(), span.total_nanos() * pow2(1074), 3),
        near(1_000_000 * span.milliseconds().value(), span.total_nanos() * pow2(1074), 5),
        near(1000 * span.microseconds().value(), span.total_nanos() * pow2(1074), 5),
{
    let u = pow2(1074) as int;
    let g: int = 1_000_000_000;
    let (s, n) = (span.secs as int, span.nanos as int);
    lemma_within_range(s);
    lemma_within_range(n);
    lemma_within_range(g);
    lemma_within_range(4 * s + 4);
    law_integer_is_rounded(s);
    law_integers_are_exact(n);
    law_integers_are_exact(g);
    let whole = Double::integer(s);
    let part = Double::integer(n).over(Double::integer(g));
    let (a, p) = (whole.value(), part.value());
    lemma_fraction(n);
    assert(near(a, s * u, 1));
    lemma_near_scales(a, s * u, 1, g);
    lemma_near_adds(a * g, p * g, (s * u) * g, n * u, 1);
    let t = span.total_nanos();
    assert((s * u) * g + n * u == t * u) by (nonlinear_arith)
        requires
            t == s * g + n,
    ;
    assert(a * g + p * g == (a + p) * g) by (nonlinear_arith);
    assert(t * u >= 0 && t * u <= (s + 1) * u * g) by (nonlinear_arith)
        requires
            t == s * g + n,
            0 <= n < g,
            s >= 0,
            u > 0,
    ;
    let b = (4 * s + 4) * u;
    assert(b == 4 * ((s + 1) * u)) by (nonlinear_arith)
        requires
            b == (4 * s + 4) * u,
    ;
    assert((a + p) * g <= (2 * ((s + 1) * u)) * g);
    assert(a + p <= 2 * ((s + 1) * u)) by (nonlinear_arith)
        requires
            (a + p) * g <= (2 * ((s + 1) * u)) * g,
            g > 0,
    ;
    lemma_near_back((a + p) * g, t * u, 1);
    assert(a + p >= 0) by (nonlinear_arith)
        requires
            (a + p) * g >= 0,
            g > 0,
    ;
    law_sum_is_rounded(whole, part);
    let r = span.seconds().value();
    assert(near(r, a + p, 1));
    lemma_near_scales(r, a + p, 1, g);
    lemma_near_chain(r * g, (a + p) * g, t * u, 1, 1);
    lemma_near_back(r, a + p, 1);
    assert(r <= b);
    lemma_thousands(span.seconds(), 1000, s);
    let m = span.milliseconds().value();
    lemma_near_scales(m, 1000 * r, 1, 1_000_000);
    assert((1000 * r) * 1_000_000 == r * g) by (nonlinear_arith)
        requires
            g == 1_000_000_000,
    ;
    lemma_near_chain(m * 1_000_000, r * g, t * u, 1, 3);
    lemma_thousands(span.seconds(), 1_000_000, s);
    let q = span.microseconds().value();
    lemma_near_scales(q, 1_000_000 * r, 1, 1000);
    assert((1_000_000 * r) * 1000 == r * g) by (nonlinear_arith)
        requires
            g == 1_000_000_000,
    ;
    lemma_near_chain(q * 1000, r * g, t * u, 1, 3);
}

/// A number of nanoseconds below one second, in seconds.
proof fn lemma_fraction(n: int)
    requires
        0 <= n < 1_000_000_000,
    ensures
        ({
            let part = Double::integer(n).over(Double::integer(1_000_000_000));
            &&& part.finite()
            &&& near(part.value() * 1_000_000_000, n * pow2(1074), 1)
        }),
{
    let u = pow2(1074) as int;
    let g: int = 1_000_000_000;
    lemma_within_range(1);
    law_integers_are_exact(n);
    law_integers_are_exact(g);
    lemma_pow2_pos(2097);
    let w = pow2(2097) as int;
    let (x, y) = (n * u, g * u);
    assert(0 <= x <= y && y > 0) by (nonlinear_arith)
        requires
            x == n * u,
            y == g * u,
            0 <= n <= g,
            g == 1_000_000_000,
            u > 0,
    ;
    assert(x * u <= w * y) by (nonlinear_arith)
        requires
            0 <= x <= y,
            0 < u <= w,
    ;
    law_quotient_is_rounded(Double::integer(n), Double::integer(g));
    let p = Double::integer(n).over(Double::integer(g)).value();
    let e = distance(p * g, x);
    assert(p * y == (p * g) * u) by (nonlinear_arith)
        requires
            y == g * u,
    ;
    assert(distance((p * g) * u, x * u) == e * u) by (nonlinear_arith)
        requires
            e == distance(p * g, x),
            u > 0,
    ;
    let c: int = 0x20_0000_0000_0000;
    if c * (e * u) <= x * u {
        assert(c * e <= x) by (nonlinear_arith)
            requires
                c * (e * u) <= x * u,
                u > 0,
        ;
    } else {
        assert(2 * e <= g) by (nonlinear_arith)
            requires
                2 * (e * u) <= g * u,
                u > 0,
        ;
        if n > 0 {
            assert(x >= u) by (nonlinear_arith)
                requires
                    x == n * u,
                    n >= 1,
                    u > 0,
            ;
        } else {
            assert(x == 0) by (nonlinear_arith)
                requires
                    x == n * u,
                    n == 0,
            ;
            assert(p == 0) by (nonlinear_arith)
                requires
                    2 * distance(p * g, 0) <= g,
                    g > 0,
            ;
        }
    }
}

/// A number of seconds in a thousand or a million times smaller units.
pub proof fn lemma_thousands(x: Double, k: int, s: int)
    requires
        x.finite(),
        0 <= x.value() <= (4 * s + 4) * pow2(1074),
        0 <= s <= u64::MAX,
        1 <= k <= 1_000_000,
    ensures
        x.times(Double::integer(k)).finite(),
        near(x.times(Double::integer(k)).value(), k * x.value(), 1),
{
    let u = pow2(1074) as int;
    let r = x.value();
    law_integers_are_exact(k);
    lemma_within_range(1_000_000 * (4 * s + 4));
    let w = pow2(2097) as int;
    let y = k * u;
    assert(size(y) == y) by (nonlinear_arith)
        requires
            y == k * u,
            k >= 1,
            u > 0,
    ;
    assert(r * y <= w * u) by (nonlinear_arith)
        requires
            0 <= r <= (4 * s + 4) * u,
            y == k * u,
            1 <= k <= 1_000_000,
            (1_000_000 * (4 * s + 4)) * u <= w,
            u > 0,
            s >= 0,
    ;
    law_product_is_rounded(x, Double::integer(k));
    let m = x.times(Double::integer(k)).value();
    let z = k * r;
    let e = distance(m, z);
    assert(r * y == z * u) by (nonlinear_arith)
        requires
            y == k * u,
            z == k * r,
    ;
    assert(distance(m * u, z * u) == e * u) by (nonlinear_arith)
        requires
            e == distance(m, z),
            u > 0,
    ;
    assert(z >= 0) by (nonlinear_arith)
        requires
            z == k * r,
            k >= 1,
            r >= 0,
    ;
    let c: int = 0x20_0000_0000_0000;
    if c * (e * u) <= z * u {
        assert(c * e <= z) by (nonlinear_arith)
            requires
                c * (e * u) <= z * u,
                u > 0,
        ;
    } else {
        assert(e == 0) by (nonlinear_arith)
            requires
                2 * (e * u) <= u,
                u > 0,
                e >= 0,
        ;
    }
}

} // verus!
