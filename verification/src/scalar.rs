//! IEEE 754 numbers held as bit patterns, with the comparisons that the planning rules make.

use vstd::prelude::*;

verus! {

/// A binary32 number, as its bit pattern.
#[derive(Clone, Copy, Debug, PartialEq, Eq, Structural)]
pub struct Single {
    pub bits: u32,
}

/// A binary64 number, as its bit pattern.
#[derive(Clone, Copy, Debug, PartialEq, Eq, Structural)]
pub struct Double {
    pub bits: u64,
}

/// The bit pattern of one.
pub const SINGLE_ONE: u32 = 0x3f80_0000;

impl Single {
    /// Exponent and fraction, without the sign.
    pub open spec fn magnitude(self) -> int {
        if self.bits >= 0x8000_0000 {
            self.bits - 0x8000_0000
        } else {
            self.bits as int
        }
    }

    pub open spec fn is_nan(self) -> bool {
        self.magnitude() > 0x7f80_0000
    }

    /// An integer that orders numbers (not NaN) as their values do; both zeros map to zero.
    pub open spec fn rank(self) -> int {
        if self.bits >= 0x8000_0000 {
            -self.magnitude()
        } else {
            self.magnitude()
        }
    }

    /// `self < other`, false where either is NaN.
    pub open spec fn lt(self, other: Single) -> bool {
        !self.is_nan() && !other.is_nan() && self.rank() < other.rank()
    }

    /// `self <= other`, false where either is NaN.
    pub open spec fn le(self, other: Single) -> bool {
        !self.is_nan() && !other.is_nan() && self.rank() <= other.rank()
    }

    pub open spec fn zero() -> Single {
        Single { bits: 0 }
    }

    pub open spec fn one() -> Single {
        Single { bits: 0x3f80_0000 }
    }

    /// `self < other`.
    pub fn less_than(self, other: Single) -> (r: bool)
        ensures
            r == self.lt(other),
    {
        let a: i64 = self.rank_value();
        let b: i64 = other.rank_value();
        !self.not_a_number() && !other.not_a_number() && a < b
    }

    /// `self <= other`.
    pub fn at_most(self, other: Single) -> (r: bool)
        ensures
            r == self.le(other),
    {
        let a: i64 = self.rank_value();
        let b: i64 = other.rank_value();
        !self.not_a_number() && !other.not_a_number() && a <= b
    }

    fn rank_value(self) -> (r: i64)
        ensures
            r == self.rank(),
    {
        if self.bits >= 0x8000_0000 {
            0 - ((self.bits - 0x8000_0000) as i64)
        } else {
            self.bits as i64
        }
    }

    fn not_a_number(self) -> (r: bool)
        ensures
            r == self.is_nan(),
    {
        if self.bits >= 0x8000_0000 {
            self.bits - 0x8000_0000 > 0x7f80_0000
        } else {
            self.bits > 0x7f80_0000
        }
    }

    /// `self > 0`.
    pub fn is_positive(self) -> (r: bool)
        ensures
            r == Single::zero().lt(self),
    {
        Single { bits: 0 }.less_than(self)
    }

    /// `self < 0`.
    pub fn is_negative(self) -> (r: bool)
        ensures
            r == self.lt(Single::zero()),
    {
        self.less_than(Single { bits: 0 })
    }

    /// `self <= 0`.
    pub fn is_at_most_zero(self) -> (r: bool)
        ensures
            r == self.le(Single::zero()),
    {
        !self.not_a_number() && self.rank_value() <= 0
    }

    /// `0 <= self <= 1`.
    pub fn in_unit_interval(self) -> (r: bool)
        ensures
            r == (Single::zero().le(self) && self.le(Single::one())),
    {
        !self.not_a_number() && self.rank_value() >= 0 && self.rank_value() <= 0x3f80_0000
    }

    /// `0 <= self < 1`.
    pub fn below_one(self) -> (r: bool)
        ensures
            r == (Single::zero().le(self) && self.lt(Single::one())),
    {
        !self.not_a_number() && self.rank_value() >= 0 && self.rank_value() < 0x3f80_0000
    }

    /// The number itself where it is positive, zero otherwise.
    pub open spec fn clamped_at_zero(self) -> Single {
        if Single::zero().lt(self) {
            self
        } else {
            Single::zero()
        }
    }

    /// `max(self, 0)`, where NaN and both zeros give positive zero.
    pub fn or_zero(self) -> (r: Single)
        ensures
            r == self.clamped_at_zero(),
    {
        if self.is_positive() {
            self
        } else {
            Single { bits: 0 }
        }
    }
}

impl Double {
    pub open spec fn is_nan(self) -> bool {
        if self.bits >= 0x8000_0000_0000_0000 {
            self.bits - 0x8000_0000_0000_0000 > 0x7ff0_0000_0000_0000
        } else {
            self.bits > 0x7ff0_0000_0000_0000
        }
    }

    /// The place of `self` in the total order: negative numbers below positive ones, minus zero
    /// right below plus zero, NaN at the two ends.
    pub open spec fn total_rank(self) -> int {
        if self.bits >= 0x8000_0000_0000_0000 {
            -(self.bits - 0x8000_0000_0000_0000) - 1
        } else {
            self.bits as int
        }
    }

    /// An integer that orders numbers (not NaN) as their values do; both zeros map to zero.
    pub open spec fn rank(self) -> int {
        if self.bits >= 0x8000_0000_0000_0000 {
            -(self.bits - 0x8000_0000_0000_0000)
        } else {
            self.bits as int
        }
    }

    /// `self < other`, false where either is NaN.
    pub open spec fn lt(self, other: Double) -> bool {
        !self.is_nan() && !other.is_nan() && self.rank() < other.rank()
    }

    fn rank_value(self) -> (r: i128)
        ensures
            r == self.rank(),
    {
        if self.bits >= 0x8000_0000_0000_0000 {
            0 - ((self.bits - 0x8000_0000_0000_0000) as i128)
        } else {
            self.bits as i128
        }
    }

    fn total_rank_value(self) -> (r: i128)
        ensures
            r == self.total_rank(),
    {
        if self.bits >= 0x8000_0000_0000_0000 {
            0 - ((self.bits - 0x8000_0000_0000_0000) as i128) - 1
        } else {
            self.bits as i128
        }
    }

    /// Whether `self` is not a number.
    pub fn not_a_number(self) -> (r: bool)
        ensures
            r == self.is_nan(),
    {
        if self.bits >= 0x8000_0000_0000_0000 {
            self.bits - 0x8000_0000_0000_0000 > 0x7ff0_0000_0000_0000
        } else {
            self.bits > 0x7ff0_0000_0000_0000
        }
    }

    /// `self < other`.
    pub fn less_than(self, other: Double) -> (r: bool)
        ensures
            r == self.lt(other),
    {
        let a: i128 = self.rank_value();
        let b: i128 = other.rank_value();
        !self.not_a_number() && !other.not_a_number() && a < b
    }

    /// `self` stands before `other` in the total order.
    pub fn total_less_than(self, other: Double) -> (r: bool)
        ensures
            r == (self.total_rank() < other.total_rank()),
    {
        self.total_rank_value() < other.total_rank_value()
    }
}

/// The total order tells any two bit patterns apart.
pub proof fn law_total_order_separates(a: Double, b: Double)
    requires
        a != b,
    ensures
        a.total_rank() < b.total_rank() || b.total_rank() < a.total_rank(),
{
}

/// Among numbers that are not NaN the total order agrees with the numeric one.
pub proof fn law_total_order_refines_values(a: Double, b: Double)
    requires
        a.lt(b),
    ensures
        a.total_rank() < b.total_rank(),
{
}

/// Numbers without a sign are ordered as their bits, numbers with a sign the other way round, and
/// those with a sign stand below those without; except that both zeros are equal. NaN compares with
/// nothing.
pub proof fn law_bits_order_numbers(a: Single, b: Single)
    ensures
        a.is_nan() || b.is_nan() ==> !a.lt(b) && !a.le(b),
        !a.is_nan() && !b.is_nan() ==> {
            let (p, q) = (a.bits < 0x8000_0000, b.bits < 0x8000_0000);
            &&& p && q ==> (a.lt(b) <==> a.bits < b.bits)
            &&& !p && !q ==> (a.lt(b) <==> b.bits < a.bits)
            &&& !p && q ==> (a.lt(b) <==> !(a.bits == 0x8000_0000 && b.bits == 0))
            &&& p && !q ==> !a.lt(b)
            &&& a.le(b) <==> !b.lt(a)
        },
        a.is_nan() <==> (0x7f80_0000 < a.bits < 0x8000_0000) || a.bits > 0xff80_0000,
{
}

/// What is cut at zero is not negative and no smaller than the number, and a number above zero stays.
pub proof fn law_cut_at_zero(a: Single)
    ensures
        Single::zero().le(a.clamped_at_zero()),
        !a.is_nan() ==> a.le(a.clamped_at_zero()),
        !a.is_nan() && a.rank() > 0 ==> a.clamped_at_zero() == a,
        a.clamped_at_zero() == a || a.clamped_at_zero().bits == 0,
{
}

/// A double-precision pattern is no number exactly where it lies beyond infinity on either side.
pub proof fn law_doubles_beyond_infinity_are_no_numbers(a: Double, b: Double)
    ensures
        a.is_nan() <==> (0x7ff0_0000_0000_0000 < a.bits < 0x8000_0000_0000_0000) || a.bits
            > 0xfff0_0000_0000_0000,
        a.is_nan() || b.is_nan() ==> !a.lt(b),
        !a.is_nan() && !b.is_nan() ==> {
            let (p, q) = (a.bits < 0x8000_0000_0000_0000, b.bits < 0x8000_0000_0000_0000);
            &&& p && q ==> (a.lt(b) <==> a.bits < b.bits)
            &&& !p && !q ==> (a.lt(b) <==> b.bits < a.bits)
            &&& !p && q ==> (a.lt(b) <==> !(a.bits == 0x8000_0000_0000_0000 && b.bits == 0))
            &&& p && !q ==> !a.lt(b)
        },
{
}

} // verus!
