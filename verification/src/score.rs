//! Relevance scores.
//!
//! A score is a single-precision number. It is held by its bit pattern, so that
//! it can be compared, negated and stored exactly.

use vstd::prelude::*;

verus! {

/// A relevance score, as the bits of a single-precision number. Higher is
/// better.
#[derive(Debug, Clone, Copy, PartialEq, Eq, Structural)]
pub struct Score {
    pub bits: u32,
}

/// The bit that holds the sign.
pub const SIGN_BIT: u32 = 0x8000_0000;

/// The place of a bit pattern in the total order of single-precision numbers:
/// negative numbers by falling magnitude, then positive ones by rising
/// magnitude.
pub open spec fn rank_of(bits: u32) -> int {
    if bits < SIGN_BIT {
        bits as int
    } else {
        -1 - (bits - SIGN_BIT)
    }
}

impl Score {
    /// The score `0.0`.
    pub fn zero() -> (r: Score)
        ensures
            r.bits == 0,
    {
        Score { bits: 0 }
    }

    /// The place of the score in the total order.
    pub open spec fn rank(self) -> int {
        rank_of(self.bits)
    }

    /// Whether the score comes before `other` in the total order.
    pub fn is_below(self, other: Score) -> (r: bool)
        ensures
            r == (self.rank() < other.rank()),
    {
        let a: u32 = self.bits;
        let b: u32 = other.bits;
        if a < SIGN_BIT {
            b < SIGN_BIT && a < b
        } else {
            b < SIGN_BIT || b < a
        }
    }

    /// The score with the opposite sign.
    pub open spec fn negation(self) -> Score {
        if self.bits < SIGN_BIT {
            Score { bits: (self.bits + SIGN_BIT) as u32 }
        } else {
            Score { bits: (self.bits - SIGN_BIT) as u32 }
        }
    }

    /// The score with the opposite sign.
    pub fn negated(self) -> (r: Score)
        ensures
            r == self.negation(),
    {
        if self.bits < SIGN_BIT {
            Score { bits: self.bits + SIGN_BIT }
        } else {
            Score { bits: self.bits - SIGN_BIT }
        }
    }
}

/// Two scores with the same place in the order are the same score.
pub proof fn law_order_is_total(a: Score, b: Score)
    ensures
        a.rank() < b.rank() || b.rank() < a.rank() || a == b,
{
}

/// Negation turns the order around.
pub proof fn law_negation_reverses(a: Score, b: Score)
    ensures
        a.rank() < b.rank() <==> b.negation().rank() < a.negation().rank(),
        a.negation().negation() == a,
{
}

/// Scores are ordered as the numbers that their bits stand for: a number without
/// the sign bit is above every one with it, of two without it the one with the
/// higher bits is higher, and of two with it the one with the lower bits is.
pub proof fn law_order_is_that_of_numbers(a: Score, b: Score)
    ensures
        a.bits < 0x8000_0000 <= b.bits ==> b.rank() < a.rank(),
        a.bits < b.bits < 0x8000_0000 ==> a.rank() < b.rank(),
        0x8000_0000 <= a.bits < b.bits ==> b.rank() < a.rank(),
        a.bits == b.bits ==> a.rank() == b.rank(),
{
}

/// Negation flips the sign bit and nothing else.
pub proof fn law_negation_flips_the_sign(a: Score)
    ensures
        a.bits < 0x8000_0000 ==> a.negation().bits == a.bits + 0x8000_0000,
        a.bits >= 0x8000_0000 ==> a.negation().bits == a.bits - 0x8000_0000,
{
}

} // verus!
