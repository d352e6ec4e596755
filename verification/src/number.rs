//! Double-precision numbers as bit patterns.

use vstd::prelude::*;

verus! {

/// The sign bit of the binary64 encoding.
pub const SIGN_BIT: u64 = 0x8000_0000_0000_0000;

/// The encoding of positive infinity: every exponent bit set, no fraction bit.
pub const INFINITY_BITS: u64 = 0x7ff0_0000_0000_0000;

/// A double-precision floating-point number, held by its IEEE 754 binary64
/// encoding: bit 63 is the sign, bits 52 to 62 the exponent, bits 0 to 51 the
/// fraction.
#[derive(Clone, Copy, Debug, PartialEq, Eq, Structural)]
pub struct Number {
    pub bits: u64,
}

/// The arithmetic that is asked of the caller's arithmetic unit.
#[derive(Clone, Copy, Debug, PartialEq, Eq, Structural)]
pub enum Operation {
    Add,
    Subtract,
    Multiply,
    Divide,
}

impl Number {
    /// The sign bit is set.
    pub open spec fn negative(self) -> bool {
        self.bits >= SIGN_BIT
    }

    /// The encoding without its sign bit.
    pub open spec fn magnitude(self) -> int {
        if self.negative() {
            self.bits - SIGN_BIT
        } else {
            self.bits as int
        }
    }

    /// Not a number: the exponent is all ones and the fraction is not zero.
    pub open spec fn nan(self) -> bool {
        self.magnitude() > INFINITY_BITS
    }

    /// The place of a number that is not a NaN on the number line. For one
    /// sign the encodings grow with the value, so the magnitude orders them;
    /// the two zeros share the place 0.
    pub open spec fn rank(self) -> int {
        if self.negative() {
            -self.magnitude()
        } else {
            self.magnitude()
        }
    }

    /// `self < other` as IEEE 754 orders doubles: false when either is a NaN.
    pub open spec fn below(self, other: Number) -> bool {
        !self.nan() && !other.nan() && self.rank() < other.rank()
    }

    /// `self <= other` as IEEE 754 orders doubles: false when either is a NaN.
    pub open spec fn at_most(self, other: Number) -> bool {
        !self.nan() && !other.nan() && self.rank() <= other.rank()
    }

    /// `self == other` as IEEE 754 compares doubles: a NaN equals nothing, not
    /// even itself, and the two zeros are equal.
    pub open spec fn same(self, other: Number) -> bool {
        !self.nan() && !other.nan() && self.rank() == other.rank()
    }

    /// The number with the sign bit flipped.
    pub open spec fn opposite(self) -> Number {
        if self.negative() {
            Number { bits: (self.bits - SIGN_BIT) as u64 }
        } else {
            Number { bits: (self.bits + SIGN_BIT) as u64 }
        }
    }

    /// The number with the encoding `bits`.
    pub fn from_bits(bits: u64) -> (r: Number)
        ensures
            r.bits == bits,
    {
        Number { bits }
    }

    /// The encoding of the number.
    pub fn to_bits(self) -> (r: u64)
        ensures
            r == self.bits,
    {
        self.bits
    }

    /// Whether the sign bit is set.
    pub fn is_negative(self) -> (r: bool)
        ensures
            r == self.negative(),
    {
        self.bits >= SIGN_BIT
    }

    fn magnitude_bits(self) -> (r: u64)
        ensures
            r == self.magnitude(),
            r < SIGN_BIT,
    {
        if self.bits >= SIGN_BIT {
            self.bits - SIGN_BIT
        } else {
            self.bits
        }
    }

    /// Whether the number is a NaN.
    pub fn is_nan(self) -> (r: bool)
        ensures
            r == self.nan(),
    {
        self.magnitude_bits() > INFINITY_BITS
    }

    /// Arithmetic negation flips the sign and nothing else, of a NaN too.
    pub fn negate(self) -> (r: Number)
        ensures
            r == self.opposite(),
            r.magnitude() == self.magnitude(),
            r.negative() == !self.negative(),
    {
        if self.bits >= SIGN_BIT {
            Number { bits: self.bits - SIGN_BIT }
        } else {
            Number { bits: self.bits + SIGN_BIT }
        }
    }

    /// `self < other`.
    pub fn less(self, other: Number) -> (r: bool)
        ensures
            r == self.below(other),
    {
        if self.is_nan() || other.is_nan() {
            false
        } else if self.is_negative() {
            if other.is_negative() {
                self.magnitude_bits() > other.magnitude_bits()
            } else {
                self.magnitude_bits() != 0 || other.magnitude_bits() != 0
            }
        } else {
            !other.is_negative() && self.magnitude_bits() < other.magnitude_bits()
        }
    }

    /// `self == other`.
    pub fn equals(self, other: Number) -> (r: bool)
        ensures
            r == self.same(other),
    {
        if self.is_nan() || other.is_nan() {
            false
        } else if self.bits == other.bits {
            true
        } else {
            self.magnitude_bits() == 0 && other.magnitude_bits() == 0
        }
    }

    /// `self <= other`.
    pub fn less_equal(self, other: Number) -> (r: bool)
        ensures
            r == self.at_most(other),
    {
        self.less(other) || self.equals(other)
    }

    /// `self > other`.
    pub fn greater(self, other: Number) -> (r: bool)
        ensures
            r == other.below(self),
    {
        other.less(self)
    }

    /// `self >= other`.
    pub fn greater_equal(self, other: Number) -> (r: bool)
        ensures
            r == other.at_most(self),
    {
        other.less_equal(self)
    }
}

/// Of two numbers that are not NaNs exactly one of `<`, `==`, `>` holds, and
/// `<=` is `<` or `==`.
pub proof fn lemma_order_is_total(a: Number, b: Number)
    requires
        !a.nan(),
        !b.nan(),
    ensures
        a.below(b) || a.same(b) || b.below(a),
        !(a.below(b) && a.same(b)),
        !(a.below(b) && b.below(a)),
        a.at_most(b) == (a.below(b) || a.same(b)),
{
}

/// Negating twice gives the number back, and negation reverses the order.
pub proof fn lemma_negation(a: Number, b: Number)
    ensures
        a.opposite().opposite() == a,
        a.opposite().nan() == a.nan(),
        a.opposite().below(b.opposite()) == b.below(a),
{
}

} // verus!
