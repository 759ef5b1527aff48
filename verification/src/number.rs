//! Single-precision numbers held by their bit pattern.

use vstd::prelude::*;

verus! {

/// The sign bit of a single-precision bit pattern.
pub const SIGN_BIT: u32 = 0x8000_0000;

/// The bit pattern of positive infinity; every larger magnitude is not a number.
pub const INFINITY_BITS: u32 = 0x7f80_0000;

/// A single-precision IEEE 754 value, held by its bit pattern.
///
/// Comparisons follow the IEEE rules: a value that is not a number compares
/// false with everything, itself included, and the two zeros are equal.
#[derive(Clone, Copy, Debug)]
pub struct Number {
    bits: u32,
}

impl Number {
    /// The bit pattern of the value.
    pub closed spec fn spec_bits(self) -> u32 {
        self.bits
    }

    /// The bit pattern without its sign bit.
    pub open spec fn magnitude(self) -> int {
        if self.spec_bits() >= SIGN_BIT {
            self.spec_bits() - SIGN_BIT
        } else {
            self.spec_bits() as int
        }
    }

    /// Whether the sign bit is set.
    pub open spec fn is_negative(self) -> bool {
        self.spec_bits() >= SIGN_BIT
    }

    /// Whether the value is not a number.
    pub open spec fn spec_is_nan(self) -> bool {
        self.magnitude() > INFINITY_BITS
    }

    /// The place of the value on the number line: values that are numbers
    /// are ordered as their ranks are, and both zeros have rank 0.
    pub open spec fn rank(self) -> int {
        if self.is_negative() {
            -self.magnitude()
        } else {
            self.magnitude()
        }
    }

    /// `self < other` under the IEEE rules.
    pub open spec fn spec_lt(self, other: Number) -> bool {
        !self.spec_is_nan() && !other.spec_is_nan() && self.rank() < other.rank()
    }

    /// `self > other` under the IEEE rules.
    pub open spec fn spec_gt(self, other: Number) -> bool {
        other.spec_lt(self)
    }

    /// `self == other` under the IEEE rules.
    pub open spec fn spec_equals(self, other: Number) -> bool {
        !self.spec_is_nan() && !other.spec_is_nan() && self.rank() == other.rank()
    }

    /// Two values that are numbers compare in exactly one of the three
    /// ways; a value that is not a number compares in none of them.
    pub proof fn lemma_trichotomy(self, other: Number)
        ensures
            !(self.spec_lt(other) && self.spec_equals(other)),
            !(self.spec_lt(other) && self.spec_gt(other)),
            !(self.spec_gt(other) && self.spec_equals(other)),
            (self.spec_lt(other) || self.spec_equals(other) || self.spec_gt(other)) <==> (
            !self.spec_is_nan() && !other.spec_is_nan()),
    {
    }

    /// Less-than is transitive, and equality is symmetric.
    pub proof fn lemma_order(self, middle: Number, other: Number)
        ensures
            self.spec_lt(middle) && middle.spec_lt(other) ==> self.spec_lt(other),
            self.spec_equals(other) == other.spec_equals(self),
    {
    }

    /// The value with the given bit pattern.
    pub fn from_bits(bits: u32) -> (number: Number)
        ensures
            number.spec_bits() == bits,
    {
        Number { bits }
    }

    /// The bit pattern of the value.
    pub fn to_bits(self) -> (bits: u32)
        ensures
            bits == self.spec_bits(),
    {
        self.bits
    }

    /// Whether the value is not a number.
    pub fn is_nan(self) -> (nan: bool)
        ensures
            nan == self.spec_is_nan(),
    {
        if self.bits >= SIGN_BIT {
            self.bits - SIGN_BIT > INFINITY_BITS
        } else {
            self.bits > INFINITY_BITS
        }
    }

    fn exec_rank(self) -> (rank: i64)
        ensures
            rank == self.rank(),
    {
        if self.bits >= SIGN_BIT {
            let magnitude: u32 = self.bits - SIGN_BIT;
            -(magnitude as i64)
        } else {
            self.bits as i64
        }
    }

    /// `self < other` under the IEEE rules.
    pub fn less_than(self, other: Number) -> (less: bool)
        ensures
            less == self.spec_lt(other),
    {
        !self.is_nan() && !other.is_nan() && self.exec_rank() < other.exec_rank()
    }

    /// `self > other` under the IEEE rules.
    pub fn greater_than(self, other: Number) -> (greater: bool)
        ensures
            greater == self.spec_gt(other),
    {
        other.less_than(self)
    }

    /// `self == other` under the IEEE rules.
    pub fn equal_to(self, other: Number) -> (equal: bool)
        ensures
            equal == self.spec_equals(other),
    {
        !self.is_nan() && !other.is_nan() && self.exec_rank() == other.exec_rank()
    }
}

} // verus!
