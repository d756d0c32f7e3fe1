//! Floating-point numbers by their bit patterns.
//!
//! The engine stores and compares double-precision numbers; it never computes with them. A
//! number is held as its IEEE 754 bit pattern, and the comparisons below are those of the
//! numbers: both zeros are equal, nothing is equal to or ordered with a NaN.
use vstd::prelude::*;

verus! {

/// A double-precision number, by its bit pattern.
#[derive(Debug, Clone, Copy, PartialEq, Eq, Structural, Hash)]
pub struct Double {
    pub bits: u64,
}

/// The bit pattern of positive infinity.
pub const INFINITY_BITS: u64 = 0x7ff0_0000_0000_0000;

/// The sign bit.
pub const SIGN_BIT: u64 = 0x8000_0000_0000_0000;

impl Double {
    /// The exponent and fraction bits: patterns without the sign are ordered as the numbers.
    pub open spec fn magnitude(self) -> int {
        if self.bits >= SIGN_BIT {
            self.bits - SIGN_BIT
        } else {
            self.bits as int
        }
    }

    pub open spec fn nan(self) -> bool {
        self.magnitude() > INFINITY_BITS
    }

    pub open spec fn finite(self) -> bool {
        self.magnitude() < INFINITY_BITS
    }

    pub open spec fn infinite(self) -> bool {
        self.magnitude() == INFINITY_BITS
    }

    /// The place of the number in the order of the numbers that are not NaN.
    pub open spec fn rank(self) -> int {
        if self.bits >= SIGN_BIT {
            -self.magnitude()
        } else {
            self.magnitude()
        }
    }

    /// Numeric equality.
    pub open spec fn eq_num(self, other: Double) -> bool {
        !self.nan() && !other.nan() && self.rank() == other.rank()
    }

    /// Numeric order.
    pub open spec fn lt_num(self, other: Double) -> bool {
        !self.nan() && !other.nan() && self.rank() < other.rank()
    }

    /// The smaller of two numbers; where one is a NaN, the other.
    pub open spec fn min_num(self, other: Double) -> Double {
        if self.nan() {
            other
        } else if other.nan() || self.rank() <= other.rank() {
            self
        } else {
            other
        }
    }

    /// The larger of two numbers; where one is a NaN, the other.
    pub open spec fn max_num(self, other: Double) -> Double {
        if self.nan() {
            other
        } else if other.nan() || self.rank() >= other.rank() {
            self
        } else {
            other
        }
    }

    fn magnitude_bits(self) -> (m: u64)
        ensures
            m == self.magnitude(),
    {
        if self.bits >= SIGN_BIT {
            self.bits - SIGN_BIT
        } else {
            self.bits
        }
    }

    /// Whether the number is neither infinite nor a NaN.
    pub fn is_finite(self) -> (b: bool)
        ensures
            b == self.finite(),
    {
        self.magnitude_bits() < INFINITY_BITS
    }

    /// Whether the number is a NaN.
    pub fn is_nan(self) -> (b: bool)
        ensures
            b == self.nan(),
    {
        self.magnitude_bits() > INFINITY_BITS
    }

    /// Whether the number is infinite.
    pub fn is_infinite(self) -> (b: bool)
        ensures
            b == self.infinite(),
    {
        self.magnitude_bits() == INFINITY_BITS
    }

    fn rank_of(self) -> (r: i128)
        ensures
            r == self.rank(),
    {
        if self.bits >= SIGN_BIT {
            -(self.magnitude_bits() as i128)
        } else {
            self.magnitude_bits() as i128
        }
    }

    /// Whether both are the same number.
    pub fn same_number(self, other: Double) -> (b: bool)
        ensures
            b == self.eq_num(other),
    {
        !self.is_nan() && !other.is_nan() && self.rank_of() == other.rank_of()
    }

    /// Whether the first number is smaller.
    pub fn less_than(self, other: Double) -> (b: bool)
        ensures
            b == self.lt_num(other),
    {
        !self.is_nan() && !other.is_nan() && self.rank_of() < other.rank_of()
    }

    /// The smaller of two numbers; where one is a NaN, the other.
    pub fn min(self, other: Double) -> (d: Double)
        ensures
            d == self.min_num(other),
    {
        if self.is_nan() {
            other
        } else if other.is_nan() || self.rank_of() <= other.rank_of() {
            self
        } else {
            other
        }
    }

    /// The larger of two numbers; where one is a NaN, the other.
    pub fn max(self, other: Double) -> (d: Double)
        ensures
            d == self.max_num(other),
    {
        if self.is_nan() {
            other
        } else if other.is_nan() || self.rank_of() >= other.rank_of() {
            self
        } else {
            other
        }
    }
}

/// A number is finite exactly where its exponent bits are not all set; where they are, it is
/// infinite without a fraction and a NaN with one.
pub proof fn exponents_tell(d: Double)
    ensures
        d.finite() <==> (d.bits >> 52) & 0x7ff != 0x7ff,
        d.infinite() <==> (d.bits >> 52) & 0x7ff == 0x7ff && d.bits & 0xf_ffff_ffff_ffff == 0,
        d.nan() <==> (d.bits >> 52) & 0x7ff == 0x7ff && d.bits & 0xf_ffff_ffff_ffff != 0,
{
    let b = d.bits;
    if b >= SIGN_BIT {
        assert(b - 0x8000_0000_0000_0000 < 0x7ff0_0000_0000_0000 <==> (b >> 52) & 0x7ff != 0x7ff)
            by (bit_vector)
            requires
                b >= 0x8000_0000_0000_0000u64,
        ;
        assert(b == 0xfff0_0000_0000_0000 <==> (b >> 52) & 0x7ff == 0x7ff && b & 0xf_ffff_ffff_ffff
            == 0) by (bit_vector)
            requires
                b >= 0x8000_0000_0000_0000u64,
        ;
    } else {
        assert(b < 0x7ff0_0000_0000_0000 <==> (b >> 52) & 0x7ff != 0x7ff) by (bit_vector)
            requires
                b < 0x8000_0000_0000_0000u64,
        ;
        assert(b == 0x7ff0_0000_0000_0000 <==> (b >> 52) & 0x7ff == 0x7ff && b & 0xf_ffff_ffff_ffff
            == 0) by (bit_vector)
            requires
                b < 0x8000_0000_0000_0000u64,
        ;
    }
}

/// Numbers are ordered as IEEE 754 has it: those without the sign bit by their bits, those with it
/// the other way round and below the others; the two zeros are equal, and a NaN is neither smaller
/// than, larger than nor equal to anything.
pub proof fn numbers_are_ordered(a: Double, b: Double)
    ensures
        a.nan() || b.nan() ==> !a.lt_num(b) && !a.eq_num(b),
        !a.nan() && !b.nan() && a.bits < SIGN_BIT && b.bits < SIGN_BIT ==> a.lt_num(b) == (a.bits
            < b.bits) && a.eq_num(b) == (a.bits == b.bits),
        !a.nan() && !b.nan() && a.bits >= SIGN_BIT && b.bits >= SIGN_BIT ==> a.lt_num(b) == (a.bits
            > b.bits) && a.eq_num(b) == (a.bits == b.bits),
        !a.nan() && !b.nan() && a.bits >= SIGN_BIT && b.bits < SIGN_BIT ==> if a.bits == SIGN_BIT
            && b.bits == 0 {
            a.eq_num(b) && !a.lt_num(b)
        } else {
            a.lt_num(b) && !a.eq_num(b)
        },
        !a.nan() && !b.nan() && a.bits < SIGN_BIT && b.bits >= SIGN_BIT ==> if b.bits == SIGN_BIT
            && a.bits == 0 {
            a.eq_num(b) && !a.lt_num(b)
        } else {
            !a.lt_num(b) && !a.eq_num(b)
        },
{
}

/// The smaller and the larger of two numbers are these two: neither is on the wrong side of the
/// other, and both are among the two. A NaN gives way to a number.
pub proof fn smaller_and_larger(a: Double, b: Double)
    ensures
        a.min_num(b) == a || a.min_num(b) == b,
        a.max_num(b) == a || a.max_num(b) == b,
        !a.nan() && !b.nan() ==> !a.lt_num(a.min_num(b)) && !b.lt_num(a.min_num(b))
            && !a.max_num(b).lt_num(a) && !a.max_num(b).lt_num(b),
        a.nan() ==> a.min_num(b) == b && a.max_num(b) == b,
        !a.nan() && b.nan() ==> a.min_num(b) == a && a.max_num(b) == a,
{
}

} // verus!
