//! IEEE 754 binary32 numbers, as far as averages of single-precision samples need them.

use super::double::Double;
use super::exact::{at_most_infinity, magnitude_of, parts, quotient, signed_units, sum, whole};
use super::rounding::{
    lemma_large_powers, lemma_nearest_at_least, nearest, nearest_magnitude, units,
};
use vstd::arithmetic::power2::{
    lemma_pow2_adds, lemma_pow2_pos, lemma_pow2_strictly_increases, pow2,
};
use vstd::prelude::*;

verus! {

/// A binary32 number, by its bit pattern: the sign in the highest bit, the magnitude below.
#[derive(Clone, Copy, Debug, PartialEq, Eq, Structural)]
pub struct Single {
    pub bits: u32,
}

/// The magnitude of infinity. Every larger magnitude is a NaN.
pub const SINGLE_INFINITY: u64 = 0x7f80_0000;

impl Single {
    pub open spec fn negative(self) -> bool {
        self.bits >= 0x8000_0000
    }

    pub open spec fn magnitude(self) -> int {
        if self.negative() {
            self.bits - 0x8000_0000
        } else {
            self.bits as int
        }
    }

    pub open spec fn nan(self) -> bool {
        self.magnitude() > SINGLE_INFINITY
    }

    pub open spec fn infinite(self) -> bool {
        self.magnitude() == SINGLE_INFINITY
    }

    pub open spec fn zero(self) -> bool {
        self.magnitude() == 0
    }

    /// The exact value of a finite number, as a multiple of `2^-149`.
    pub open spec fn value(self) -> int {
        signed_units(self.negative(), self.magnitude(), 24)
    }

    /// The number with the given sign and magnitude.
    pub open spec fn of(negative: bool, magnitude: int) -> Single {
        Single {
            bits: (if negative {
                0x8000_0000int
            } else {
                0
            } + magnitude) as u32,
        }
    }

    /// The number nearest to `num / den` units of `2^-149`.
    pub open spec fn nearest(negative: bool, num: int, den: int) -> Single {
        Single::of(negative, at_most_infinity(nearest_magnitude(num, den, 24), SINGLE_INFINITY))
    }

    /// The NaN that operations without a numeric result give.
    pub open spec fn invalid() -> Single {
        Single { bits: 0x7fc0_0000 }
    }

    /// The number nearest to `n`.
    pub open spec fn integer(n: nat) -> Single {
        Single::nearest(false, (n * pow2(149)) as int, 1)
    }

    /// The rounded sum.
    pub open spec fn plus(self, other: Single) -> Single {
        if self.nan() || other.nan() || (self.infinite() && other.infinite() && self.negative()
            != other.negative()) {
            Single::invalid()
        } else if self.infinite() {
            self
        } else if other.infinite() {
            other
        } else if self.value() + other.value() == 0 {
            Single::of(self.negative() && other.negative(), 0)
        } else {
            Single::nearest(
                self.value() + other.value() < 0,
                magnitude_of(self.value() + other.value()),
                1,
            )
        }
    }

    /// The rounded quotient.
    pub open spec fn over(self, other: Single) -> Single {
        let negative = self.negative() != other.negative();
        if self.nan() || other.nan() || (self.infinite() && other.infinite()) || (self.zero()
            && other.zero()) {
            Single::invalid()
        } else if self.infinite() || other.zero() {
            Single::of(negative, SINGLE_INFINITY as int)
        } else if other.infinite() {
            Single::of(negative, 0)
        } else {
            Single::nearest(
                negative,
                units(self.magnitude(), 24) * pow2(149),
                units(other.magnitude(), 24),
            )
        }
    }

    /// The same number in double precision.
    pub open spec fn widened(self) -> Double {
        if self.nan() {
            Double::invalid()
        } else if self.infinite() {
            Double::of(self.negative(), 0x7ff0_0000_0000_0000)
        } else {
            Double::nearest(self.negative(), units(self.magnitude(), 24) * pow2(925), 1)
        }
    }

    pub fn from_bits(bits: u32) -> (r: Single)
        ensures
            r.bits == bits,
    {
        Single { bits }
    }

    fn split(self) -> (r: (bool, u64))
        ensures
            r.0 == self.negative(),
            r.1 == self.magnitude(),
    {
        if self.bits >= 0x8000_0000 {
            (true, (self.bits - 0x8000_0000) as u64)
        } else {
            (false, self.bits as u64)
        }
    }

    fn join(negative: bool, magnitude: u64) -> (r: Single)
        requires
            magnitude < 0x8000_0000,
        ensures
            r == Single::of(negative, magnitude as int),
    {
        if negative {
            Single { bits: 0x8000_0000 + magnitude as u32 }
        } else {
            Single { bits: magnitude as u32 }
        }
    }

    pub fn from_u64(n: u64) -> (r: Single)
        ensures
            r == Single::integer(n as nat),
    {
        Single::join(false, whole(n, 24, SINGLE_INFINITY))
    }

    pub fn add(self, other: Single) -> (r: Single)
        ensures
            r == self.plus(other),
    {
        let (n1, m1) = self.split();
        let (n2, m2) = other.split();
        if m1 > SINGLE_INFINITY || m2 > SINGLE_INFINITY || (m1 == SINGLE_INFINITY && m2
            == SINGLE_INFINITY && n1 != n2) {
            Single { bits: 0x7fc0_0000 }
        } else if m1 == SINGLE_INFINITY {
            self
        } else if m2 == SINGLE_INFINITY {
            other
        } else {
            let (n, m) = sum(n1, m1, n2, m2, 24, SINGLE_INFINITY);
            proof {
                lemma_rounds_to_zero_only_zero(magnitude_of(self.value() + other.value()));
            }
            if m == 0 {
                Single::join(n1 && n2, 0)
            } else {
                Single::join(n, m)
            }
        }
    }

    pub fn div(self, other: Single) -> (r: Single)
        ensures
            r == self.over(other),
    {
        let (n1, m1) = self.split();
        let (n2, m2) = other.split();
        if m1 > SINGLE_INFINITY || m2 > SINGLE_INFINITY || (m1 == SINGLE_INFINITY && m2
            == SINGLE_INFINITY) || (m1 == 0 && m2 == 0) {
            Single { bits: 0x7fc0_0000 }
        } else if m1 == SINGLE_INFINITY || m2 == 0 {
            Single::join(n1 != n2, SINGLE_INFINITY)
        } else if m2 == SINGLE_INFINITY {
            Single::join(n1 != n2, 0)
        } else {
            Single::join(n1 != n2, quotient(m1, m2, 24, SINGLE_INFINITY))
        }
    }

    pub fn to_double(self) -> (r: Double)
        ensures
            r == self.widened(),
    {
        let (n, m) = self.split();
        let sign: u64 = if n {
            0x8000_0000_0000_0000
        } else {
            0
        };
        if m > SINGLE_INFINITY {
            Double { bits: 0x7ff8_0000_0000_0000 }
        } else if m == SINGLE_INFINITY {
            Double { bits: sign + 0x7ff0_0000_0000_0000 }
        } else {
            let (s, k) = parts(m, 24, SINGLE_INFINITY);
            let ghost num = units(m as int, 24) * pow2(925);
            proof {
                lemma_large_powers();
                lemma_pow2_strictly_increases(24, 120);
                lemma_pow2_adds(k as nat, 925);
                lemma_pow2_adds((k + 925) as nat, 4096);
                lemma_pow2_pos((k + 925 + 4096) as nat);
                let a = pow2(k as nat) as int;
                let b = pow2(925) as int;
                let c = pow2(4096) as int;
                let w = pow2((k + 925 + 4096) as nat) as int;
                assert(num * c == s * (1 * w)) by (nonlinear_arith)
                    requires
                        num == (s * a) * b,
                        w == (a * b) * c,
                ;
                assert(s * (1 * w) < (s + 1) * (1 * w)) by (nonlinear_arith)
                    requires
                        w > 0,
                ;
            }
            let mag: u64 = nearest(
                s as u128,
                k as i32 + 925,
                false,
                53,
                0x7ff0_0000_0000_0000,
                Ghost(num),
                Ghost(1),
            );
            Double { bits: sign + mag }
        }
    }
}

proof fn lemma_rounds_to_zero_only_zero(n: int)
    ensures
        nearest_magnitude(0, 1, 24) == 0,
        n > 0 ==> nearest_magnitude(n, 1, 24) > 0,
{
    lemma_large_powers();
    let k: nat = 0;
    if n >= pow2(24) {
        assert(pow2(23) * (1 * pow2(k)) == pow2(23)) by (nonlinear_arith)
            requires
                pow2(k) == 1,
        ;
        lemma_nearest_at_least(n, 1, 24, k);
        assert((k + 1) * pow2(23) == pow2(23)) by (nonlinear_arith)
            requires
                k == 0,
        ;
    }
}

} // verus!
