//! Measured values.
//!
//! A measured value is a double-precision number, held as the bits of its
//! IEEE-754 form and compared on them.

use vstd::prelude::*;

verus! {

/// A double-precision number by its IEEE-754 bits.
#[derive(Debug, Clone, Copy, PartialEq, Eq, Structural)]
pub struct Measure {
    pub bits: u64,
}

/// The bits of positive infinity: larger magnitudes are not numbers.
pub const INFINITY_BITS: u64 = 0x7FF0_0000_0000_0000;

/// The sign bit.
pub const SIGN_BIT: u64 = 0x8000_0000_0000_0000;

impl Measure {
    /// The bits without the sign.
    pub open spec fn magnitude(self) -> int {
        self.bits as int % SIGN_BIT as int
    }

    /// Whether the sign bit is set.
    pub open spec fn negative(self) -> bool {
        self.bits >= SIGN_BIT
    }

    /// Whether the bits do not denote a number.
    pub open spec fn is_nan_spec(self) -> bool {
        self.magnitude() > INFINITY_BITS
    }

    /// The place of the number in the order of all numbers; the two zeros
    /// share one place.
    pub open spec fn rank(self) -> int {
        if self.negative() {
            -self.magnitude()
        } else {
            self.magnitude()
        }
    }

    /// `self > other`; never where one of them is not a number.
    pub open spec fn gt_spec(self, other: Measure) -> bool {
        !self.is_nan_spec() && !other.is_nan_spec() && self.rank() > other.rank()
    }

    /// `self >= other`; never where one of them is not a number.
    pub open spec fn ge_spec(self, other: Measure) -> bool {
        !self.is_nan_spec() && !other.is_nan_spec() && self.rank() >= other.rank()
    }

    /// The greater of two numbers; the other one where one is not a number.
    pub open spec fn max_spec(self, other: Measure) -> Measure {
        if self.is_nan_spec() {
            other
        } else if other.is_nan_spec() {
            self
        } else if self.rank() >= other.rank() {
            self
        } else {
            other
        }
    }

    /// The number with the sign bit cleared.
    pub open spec fn abs_spec(self) -> Measure {
        Measure { bits: self.magnitude() as u64 }
    }

    /// Whether the bits do not denote a number.
    pub fn is_nan(&self) -> (r: bool)
        ensures
            r == self.is_nan_spec(),
    {
        self.bits % SIGN_BIT > INFINITY_BITS
    }

    /// The place of the number in the order of all numbers.
    pub fn signed_rank(&self) -> (r: i128)
        ensures
            r == self.rank(),
    {
        let magnitude: i128 = (self.bits % SIGN_BIT) as i128;
        if self.bits >= SIGN_BIT {
            -magnitude
        } else {
            magnitude
        }
    }

    /// Whether this number is greater than the other.
    pub fn gt(&self, other: &Measure) -> (r: bool)
        ensures
            r == self.gt_spec(*other),
    {
        !self.is_nan() && !other.is_nan() && self.signed_rank() > other.signed_rank()
    }

    /// Whether this number is at least the other.
    pub fn ge(&self, other: &Measure) -> (r: bool)
        ensures
            r == self.ge_spec(*other),
    {
        !self.is_nan() && !other.is_nan() && self.signed_rank() >= other.signed_rank()
    }

    /// The greater of two numbers.
    pub fn max(&self, other: &Measure) -> (r: Measure)
        ensures
            r == self.max_spec(*other),
    {
        if self.is_nan() {
            *other
        } else if other.is_nan() {
            *self
        } else if self.signed_rank() >= other.signed_rank() {
            *self
        } else {
            *other
        }
    }

    /// The absolute value.
    pub fn abs(&self) -> (r: Measure)
        ensures
            r == self.abs_spec(),
    {
        Measure { bits: self.bits % SIGN_BIT }
    }
}

/// No number is greater than itself, and of two different places in the order
/// exactly one is greater.
pub proof fn comparison_is_a_strict_order(a: Measure, b: Measure, c: Measure)
    ensures
        !a.gt_spec(a),
        a.gt_spec(b) ==> !b.gt_spec(a),
        a.gt_spec(b) && b.gt_spec(c) ==> a.gt_spec(c),
        a.ge_spec(b) && !a.gt_spec(b) ==> a.rank() == b.rank(),
{
}

/// Positive numbers are ordered as their bits are, negative ones the other way round; a
/// negative number is below a positive one, and the two zeros are equal.
pub proof fn numbers_are_ordered(a: Measure, b: Measure)
    requires
        !a.is_nan_spec(),
        !b.is_nan_spec(),
    ensures
        a.bits < 0x8000_0000_0000_0000 && b.bits < 0x8000_0000_0000_0000 ==> (a.gt_spec(b)
            <==> a.bits > b.bits),
        a.bits >= 0x8000_0000_0000_0000 && b.bits >= 0x8000_0000_0000_0000 ==> (a.gt_spec(b)
            <==> a.bits < b.bits),
        a.bits > 0x8000_0000_0000_0000 && b.bits < 0x8000_0000_0000_0000 ==> b.gt_spec(a),
        a.bits == 0 && b.bits == 0x8000_0000_0000_0000 ==> a.ge_spec(b) && b.ge_spec(a),
        a.ge_spec(b) <==> !b.gt_spec(a),
        a.gt_spec(b) ==> a.ge_spec(b),
{
}

/// What is not a number compares with nothing: such are the bits beyond infinity.
pub proof fn no_numbers_compare_with_nothing(a: Measure, b: Measure)
    ensures
        a.is_nan_spec() <==> (0x7FF0_0000_0000_0000 < a.bits < 0x8000_0000_0000_0000 || a.bits
            > 0xFFF0_0000_0000_0000),
        a.is_nan_spec() ==> !a.gt_spec(b) && !b.gt_spec(a) && !a.ge_spec(b) && !b.ge_spec(a),
{
}

/// The absolute value has no sign and the magnitude of the number; the greater of two is
/// one of them and at least as great as either.
pub proof fn magnitudes_have_no_sign(a: Measure, b: Measure)
    ensures
        a.abs_spec().bits < 0x8000_0000_0000_0000,
        a.bits < 0x8000_0000_0000_0000 ==> a.abs_spec() == a,
        a.bits >= 0x8000_0000_0000_0000 ==> a.abs_spec().bits == a.bits - 0x8000_0000_0000_0000,
        a.max_spec(b) == a || a.max_spec(b) == b,
        !a.is_nan_spec() && !b.is_nan_spec() ==> a.max_spec(b).ge_spec(a) && a.max_spec(b).ge_spec(
            b,
        ),
        a.is_nan_spec() ==> a.max_spec(b) == b,
        b.is_nan_spec() && !a.is_nan_spec() ==> a.max_spec(b) == a,
{
}

} // verus!
