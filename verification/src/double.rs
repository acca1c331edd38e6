//! Floating-point values that the library stores, compares and hands on, but never computes with.

use vstd::prelude::*;

verus! {

/// An IEEE 754 double-precision value, held as its bits.
#[derive(Clone, Copy, Debug, PartialEq, Eq, Structural)]
pub struct Double {
    pub bits: u64,
}

/// The bits of 2.0.
pub const TWO_BITS: u64 = 0x4000_0000_0000_0000;

/// The first bit pattern with the sign bit set: minus zero.
pub const SIGN_BIT: u64 = 0x8000_0000_0000_0000;

impl Double {
    /// The place of the value in the order of the real numbers: for any two values that are numbers,
    /// the lesser one has the lesser key, and equal ones (the two zeros among them) the same key.
    pub open spec fn key(self) -> int {
        if self.bits < SIGN_BIT {
            self.bits as int
        } else {
            SIGN_BIT - self.bits
        }
    }

    /// Whether `self` is less than `other`.
    pub fn less(self, other: Double) -> (r: bool)
        ensures
            r == (self.key() < other.key()),
    {
        if self.bits < SIGN_BIT {
            other.bits < SIGN_BIT && self.bits < other.bits
        } else if other.bits < SIGN_BIT {
            self.bits > SIGN_BIT || other.bits > 0
        } else {
            self.bits > other.bits
        }
    }

    /// Whether the value lies between 0 and 2, both included. (A value that is no number does not:
    /// its key is beyond that of infinity, on one side or the other.)
    pub open spec fn within_zero_and_two(self) -> bool {
        0 <= self.key() <= TWO_BITS
    }

    pub fn is_within_zero_and_two(self) -> (r: bool)
        ensures
            r == self.within_zero_and_two(),
    {
        self.bits <= TWO_BITS || self.bits == SIGN_BIT
    }
}

/// Of two values that are not below zero the one with the greater bits is the greater; of two that are,
/// it is the lesser; those below zero come before the others; and the two zeros are equal.
pub proof fn law_values_are_ordered_as_numbers(a: Double, b: Double)
    ensures
        a.bits < SIGN_BIT && b.bits < SIGN_BIT ==> (a.key() < b.key() <==> a.bits < b.bits),
        a.bits >= SIGN_BIT && b.bits >= SIGN_BIT ==> (a.key() < b.key() <==> a.bits > b.bits),
        a.bits > SIGN_BIT && b.bits < SIGN_BIT ==> a.key() < b.key(),
        a.bits == SIGN_BIT && b.bits == 0 ==> a.key() == b.key(),
        a.within_zero_and_two() <==> a.bits <= 0x4000_0000_0000_0000 || a.bits
            == 0x8000_0000_0000_0000,
{
}

} // verus!
