//! IEEE 754 binary64 numbers.

use super::exact::{at_most_infinity, magnitude_of, product, quotient, signed_units, sum, whole};
use super::root::{nearest_root_magnitude, root};
use super::rounding::{lemma_large_powers, lemma_nearest_at_least, nearest_magnitude, units};
use vstd::arithmetic::power2::pow2;
use vstd::prelude::*;

verus! {

/// A binary64 number, by its bit pattern: the sign in the highest bit, the magnitude below.
#[derive(Clone, Copy, Debug, PartialEq, Eq, Structural)]
pub struct Double {
    pub bits: u64,
}

/// The magnitude of infinity. Every larger magnitude is a NaN.
pub const INFINITE_MAGNITUDE: u64 = 0x7ff0_0000_0000_0000;

impl Double {
    pub open spec fn negative(self) -> bool {
        self.bits >= 0x8000_0000_0000_0000
    }

    pub open spec fn magnitude(self) -> int {
        if self.negative() {
            self.bits - 0x8000_0000_0000_0000
        } else {
            self.bits as int
        }
    }

    pub open spec fn nan(self) -> bool {
        self.magnitude() > INFINITE_MAGNITUDE
    }

    pub open spec fn infinite(self) -> bool {
        self.magnitude() == INFINITE_MAGNITUDE
    }

    pub open spec fn finite(self) -> bool {
        self.magnitude() < INFINITE_MAGNITUDE
    }

    pub open spec fn zero(self) -> bool {
        self.magnitude() == 0
    }

    /// The exact value of a finite number, as a multiple of `2^-1074`.
    pub open spec fn value(self) -> int {
        signed_units(self.negative(), self.magnitude(), 53)
    }

    /// Where a number that is not a NaN stands in the order of all numbers. The two zeros share
    /// one place.
    pub open spec fn rank(self) -> int {
        if self.negative() {
            -self.magnitude()
        } else {
            self.magnitude()
        }
    }

    /// `self < other`, which is false as soon as one of them is a NaN.
    pub open spec fn less(self, other: Double) -> bool {
        !self.nan() && !other.nan() && self.rank() < other.rank()
    }

    /// `self == other` as numbers: the two zeros are equal, a NaN equals nothing.
    pub open spec fn same(self, other: Double) -> bool {
        !self.nan() && !other.nan() && self.rank() == other.rank()
    }

    /// The same in every bit, but for the sign of a zero.
    pub open spec fn alike(self, other: Double) -> bool {
        self == other || (self.zero() && other.zero())
    }

    /// The number with the given sign and magnitude.
    pub open spec fn of(negative: bool, magnitude: int) -> Double {
        Double {
            bits: (if negative {
                0x8000_0000_0000_0000int
            } else {
                0
            } + magnitude) as u64,
        }
    }

    /// The number nearest to `num / den` units of `2^-1074`, infinite where that is beyond the
    /// largest finite number.
    pub open spec fn nearest(negative: bool, num: int, den: int) -> Double {
        Double::of(negative, at_most_infinity(nearest_magnitude(num, den, 53), INFINITE_MAGNITUDE))
    }

    /// The NaN that operations without a numeric result give.
    pub open spec fn invalid() -> Double {
        Double { bits: 0x7ff8_0000_0000_0000 }
    }

    /// The number nearest to the integer `n`.
    pub open spec fn integer(n: int) -> Double {
        Double::nearest(n < 0, magnitude_of(n) * pow2(1074), 1)
    }

    pub open spec fn negated(self) -> Double {
        Double::of(!self.negative(), self.magnitude())
    }

    /// The number without its sign.
    pub open spec fn absolute(self) -> Double {
        Double::of(false, self.magnitude())
    }

    /// The rounded sum.
    pub open spec fn plus(self, other: Double) -> Double {
        if self.nan() || other.nan() || (self.infinite() && other.infinite() && self.negative()
            != other.negative()) {
            Double::invalid()
        } else if self.infinite() {
            self
        } else if other.infinite() {
            other
        } else if self.value() + other.value() == 0 {
            Double::of(self.negative() && other.negative(), 0)
        } else {
            Double::nearest(
                self.value() + other.value() < 0,
                magnitude_of(self.value() + other.value()),
                1,
            )
        }
    }

    /// The rounded difference.
    pub open spec fn minus(self, other: Double) -> Double {
        self.plus(other.negated())
    }

    /// The rounded product.
    pub open spec fn times(self, other: Double) -> Double {
        let negative = self.negative() != other.negative();
        if self.nan() || other.nan() || (self.infinite() && other.zero()) || (self.zero()
            && other.infinite()) {
            Double::invalid()
        } else if self.infinite() || other.infinite() {
            Double::of(negative, INFINITE_MAGNITUDE as int)
        } else {
            Double::nearest(
                negative,
                units(self.magnitude(), 53) * units(other.magnitude(), 53),
                pow2(1074) as int,
            )
        }
    }

    /// The rounded quotient.
    pub open spec fn over(self, other: Double) -> Double {
        let negative = self.negative() != other.negative();
        if self.nan() || other.nan() || (self.infinite() && other.infinite()) || (self.zero()
            && other.zero()) {
            Double::invalid()
        } else if self.infinite() || other.zero() {
            Double::of(negative, INFINITE_MAGNITUDE as int)
        } else if other.infinite() {
            Double::of(negative, 0)
        } else {
            Double::nearest(
                negative,
                units(self.magnitude(), 53) * pow2(1074),
                units(other.magnitude(), 53),
            )
        }
    }

    /// The rounded square root.
    pub open spec fn square_root(self) -> Double {
        if self.zero() {
            self
        } else if self.nan() || self.negative() {
            Double::invalid()
        } else if self.infinite() {
            self
        } else {
            Double::of(
                false,
                at_most_infinity(
                    nearest_root_magnitude(units(self.magnitude(), 53) * pow2(1074), 1, 53),
                    INFINITE_MAGNITUDE,
                ),
            )
        }
    }

    pub fn from_bits(bits: u64) -> (r: Double)
        ensures
            r.bits == bits,
    {
        Double { bits }
    }

    pub fn to_bits(self) -> (bits: u64)
        ensures
            bits == self.bits,
    {
        self.bits
    }

    fn split(self) -> (r: (bool, u64))
        ensures
            r.0 == self.negative(),
            r.1 == self.magnitude(),
    {
        if self.bits >= 0x8000_0000_0000_0000 {
            (true, self.bits - 0x8000_0000_0000_0000)
        } else {
            (false, self.bits)
        }
    }

    fn join(negative: bool, magnitude: u64) -> (r: Double)
        requires
            magnitude < 0x8000_0000_0000_0000,
        ensures
            r == Double::of(negative, magnitude as int),
    {
        if negative {
            Double { bits: 0x8000_0000_0000_0000 + magnitude }
        } else {
            Double { bits: magnitude }
        }
    }

    pub fn is_nan(self) -> (r: bool)
        ensures
            r == self.nan(),
    {
        let (_, m) = self.split();
        m > INFINITE_MAGNITUDE
    }

    pub fn lt(self, other: Double) -> (r: bool)
        ensures
            r == self.less(other),
    {
        let (n1, m1) = self.split();
        let (n2, m2) = other.split();
        if m1 > INFINITE_MAGNITUDE || m2 > INFINITE_MAGNITUDE {
            false
        } else if n1 {
            if n2 {
                m2 < m1
            } else {
                m1 > 0 || m2 > 0
            }
        } else if n2 {
            false
        } else {
            m1 < m2
        }
    }

    /// Whether `self` stands before `other` in the order of all numbers. A NaN stands beyond the
    /// infinity of its sign.
    pub fn ranks_below(self, other: Double) -> (r: bool)
        ensures
            r == (self.rank() < other.rank()),
    {
        let (n1, m1) = self.split();
        let (n2, m2) = other.split();
        if n1 {
            if n2 {
                m2 < m1
            } else {
                m1 > 0 || m2 > 0
            }
        } else if n2 {
            false
        } else {
            m1 < m2
        }
    }

    pub fn equals(self, other: Double) -> (r: bool)
        ensures
            r == self.same(other),
    {
        let (n1, m1) = self.split();
        let (n2, m2) = other.split();
        if m1 > INFINITE_MAGNITUDE || m2 > INFINITE_MAGNITUDE {
            false
        } else {
            m1 == m2 && (n1 == n2 || m1 == 0)
        }
    }

    pub fn from_u64(n: u64) -> (r: Double)
        ensures
            r == Double::integer(n as int),
    {
        Double::join(false, whole(n, 53, INFINITE_MAGNITUDE))
    }

    pub fn from_i64(n: i64) -> (r: Double)
        ensures
            r == Double::integer(n as int),
    {
        if n < 0 {
            let m: u64 = (-(n + 1)) as u64 + 1;
            Double::join(true, whole(m, 53, INFINITE_MAGNITUDE))
        } else {
            Double::join(false, whole(n as u64, 53, INFINITE_MAGNITUDE))
        }
    }

    pub fn abs(self) -> (r: Double)
        ensures
            r == self.absolute(),
    {
        let (_, magnitude) = self.split();
        Double::join(false, magnitude)
    }

    pub fn neg(self) -> (r: Double)
        ensures
            r == self.negated(),
    {
        let (n, m) = self.split();
        Double::join(!n, m)
    }

    pub fn add(self, other: Double) -> (r: Double)
        ensures
            r == self.plus(other),
    {
        let (n1, m1) = self.split();
        let (n2, m2) = other.split();
        if m1 > INFINITE_MAGNITUDE || m2 > INFINITE_MAGNITUDE || (m1 == INFINITE_MAGNITUDE && m2
            == INFINITE_MAGNITUDE && n1 != n2) {
            Double { bits: 0x7ff8_0000_0000_0000 }
        } else if m1 == INFINITE_MAGNITUDE {
            self
        } else if m2 == INFINITE_MAGNITUDE {
            other
        } else {
            let (n, m) = sum(n1, m1, n2, m2, 53, INFINITE_MAGNITUDE);
            proof {
                lemma_nearest_zero();
                lemma_nearest_positive(magnitude_of(self.value() + other.value()));
            }
            if m == 0 {
                Double::join(n1 && n2, 0)
            } else {
                Double::join(n, m)
            }
        }
    }

    pub fn sub(self, other: Double) -> (r: Double)
        ensures
            r == self.minus(other),
    {
        self.add(other.neg())
    }

    pub fn mul(self, other: Double) -> (r: Double)
        ensures
            r == self.times(other),
    {
        let (n1, m1) = self.split();
        let (n2, m2) = other.split();
        if m1 > INFINITE_MAGNITUDE || m2 > INFINITE_MAGNITUDE || (m1 == INFINITE_MAGNITUDE && m2
            == 0) || (m1 == 0 && m2 == INFINITE_MAGNITUDE) {
            Double { bits: 0x7ff8_0000_0000_0000 }
        } else if m1 == INFINITE_MAGNITUDE || m2 == INFINITE_MAGNITUDE {
            Double::join(n1 != n2, INFINITE_MAGNITUDE)
        } else {
            Double::join(n1 != n2, product(m1, m2, 53, INFINITE_MAGNITUDE))
        }
    }

    pub fn div(self, other: Double) -> (r: Double)
        ensures
            r == self.over(other),
    {
        let (n1, m1) = self.split();
        let (n2, m2) = other.split();
        if m1 > INFINITE_MAGNITUDE || m2 > INFINITE_MAGNITUDE || (m1 == INFINITE_MAGNITUDE && m2
            == INFINITE_MAGNITUDE) || (m1 == 0 && m2 == 0) {
            Double { bits: 0x7ff8_0000_0000_0000 }
        } else if m1 == INFINITE_MAGNITUDE || m2 == 0 {
            Double::join(n1 != n2, INFINITE_MAGNITUDE)
        } else if m2 == INFINITE_MAGNITUDE {
            Double::join(n1 != n2, 0)
        } else {
            Double::join(n1 != n2, quotient(m1, m2, 53, INFINITE_MAGNITUDE))
        }
    }

    pub fn sqrt(self) -> (r: Double)
        ensures
            r == self.square_root(),
    {
        let (n, m) = self.split();
        if m == 0 {
            self
        } else if m > INFINITE_MAGNITUDE || n {
            Double { bits: 0x7ff8_0000_0000_0000 }
        } else if m == INFINITE_MAGNITUDE {
            self
        } else {
            Double::join(false, root(m))
        }
    }
}

proof fn lemma_nearest_zero()
    ensures
        nearest_magnitude(0, 1, 53) == 0,
{
    lemma_large_powers();
}

/// A whole positive number of units does not round to zero.
proof fn lemma_nearest_positive(n: int)
    ensures
        n > 0 ==> nearest_magnitude(n, 1, 53) > 0,
{
    if n > 0 {
        lemma_large_powers();
        let k: nat = 0;
        if n >= pow2(53) {
            assert(pow2(52) * (1 * pow2(k)) == pow2(52)) by (nonlinear_arith)
                requires
                    pow2(k) == 1,
            ;
            lemma_nearest_at_least(n, 1, 53, k);
            assert((k + 1) * pow2(52) == pow2(52)) by (nonlinear_arith)
                requires
                    k == 0,
            ;
        }
    }
}

} // verus!
