//! Double-precision numbers as values to keep and to compare.
//!
//! A number is held by its IEEE 754 bits, so that nothing is lost on the way in or out.
//! Arithmetic on numbers is not done here.
use vstd::prelude::*;

verus! {

/// The bits of positive infinity; a larger magnitude is not a number.
pub const INFINITY_BITS: u64 = 0x7FF0_0000_0000_0000;

/// The sign bit.
pub const SIGN_BIT: u64 = 0x8000_0000_0000_0000;

/// A double-precision number.
#[derive(Debug, Clone, Copy, PartialEq, Eq, Hash, Structural)]
pub struct Score {
    /// The IEEE 754 bits.
    pub bits: u64,
}

/// The number zero.
pub open spec fn zero() -> Score {
    Score { bits: 0 }
}

impl Score {
    /// Whether the sign bit is set.
    pub open spec fn negative(self) -> bool {
        self.bits >= SIGN_BIT
    }

    /// The bits without the sign.
    pub open spec fn magnitude(self) -> int {
        if self.negative() {
            self.bits - SIGN_BIT
        } else {
            self.bits as int
        }
    }

    /// Where the number stands among all numbers: one number is less than another exactly if
    /// its rank is. Both zeros have rank zero; what is not a number has no rank.
    pub open spec fn rank(self) -> Option<int> {
        if self.magnitude() > INFINITY_BITS {
            None
        } else if self.negative() {
            Some(-self.magnitude())
        } else {
            Some(self.magnitude())
        }
    }

    /// Whether this number is less than another; never where either is not a number.
    pub open spec fn below(self, other: Score) -> bool {
        self.rank() is Some && other.rank() is Some && self.rank()->Some_0 < other.rank()->Some_0
    }

    /// Whether this number is at least another; never where either is not a number.
    pub open spec fn reaches(self, other: Score) -> bool {
        self.rank() is Some && other.rank() is Some && self.rank()->Some_0 >= other.rank()->Some_0
    }

    /// The number with the given bits.
    pub fn from_bits(bits: u64) -> (r: Score)
        ensures
            r.bits == bits,
    {
        Score { bits }
    }

    /// Where the number stands among all numbers.
    pub fn place(self) -> (r: Option<i128>)
        ensures
            r is Some <==> self.rank() is Some,
            r matches Some(k) ==> self.rank() == Some(k as int),
    {
        if self.bits >= SIGN_BIT {
            let m: u64 = self.bits - SIGN_BIT;
            if m > INFINITY_BITS {
                None
            } else {
                Some(-(m as i128))
            }
        } else if self.bits > INFINITY_BITS {
            None
        } else {
            Some(self.bits as i128)
        }
    }

    /// Whether this number is less than another.
    pub fn is_below(self, other: Score) -> (r: bool)
        ensures
            r == self.below(other),
    {
        match (self.place(), other.place()) {
            (Some(a), Some(b)) => a < b,
            _ => false,
        }
    }

    /// Whether this number is at least another.
    pub fn is_at_least(self, other: Score) -> (r: bool)
        ensures
            r == self.reaches(other),
    {
        match (self.place(), other.place()) {
            (Some(a), Some(b)) => a >= b,
            _ => false,
        }
    }
}

/// Of two numbers neither of which lacks a rank, one is less or the other reaches it.
pub proof fn law_numbers_are_totally_ordered(a: Score, b: Score)
    requires
        a.rank() is Some,
        b.rank() is Some,
    ensures
        a.below(b) <==> !a.reaches(b),
        a.reaches(b) || b.reaches(a),
{
}

/// The larger of two numbers; the first where the second is not larger.
pub open spec fn larger(a: Score, b: Score) -> Score {
    if a.below(b) {
        b
    } else {
        a
    }
}

/// The largest of some numbers and zero; what is not a number is passed over.
pub open spec fn largest(scores: Seq<Score>) -> Score
    decreases scores.len(),
{
    if scores.len() == 0 {
        zero()
    } else {
        larger(largest(scores.drop_last()), scores.last())
    }
}

/// The largest is a number, and no number among the given ones is above it.
pub proof fn law_largest_bounds(scores: Seq<Score>)
    ensures
        largest(scores).rank() is Some,
        largest(scores).reaches(zero()),
        largest(scores) == zero() || scores.contains(largest(scores)),
        forall|i: int| 0 <= i < scores.len() && (#[trigger] scores[i]).rank() is Some ==> largest(scores).reaches(scores[i]),
    decreases scores.len(),
{
    if scores.len() > 0 {
        let rest = scores.drop_last();
        law_largest_bounds(rest);
        if scores.last() == largest(scores) {
            assert(scores[scores.len() - 1] == largest(scores));
        } else if rest.contains(largest(rest)) {
            let j = choose|j: int| 0 <= j < rest.len() && rest[j] == largest(rest);
            assert(scores[j] == largest(rest));
        }
        assert forall|i: int| 0 <= i < scores.len() && (#[trigger] scores[i]).rank() is Some implies largest(scores).reaches(
            scores[i],
        ) by {
            if i < rest.len() {
                assert(rest[i] == scores[i]);
            }
        }
    }
}

/// Whether bits are those of a number: the exponent is not all ones, or the fraction is zero.
pub open spec fn is_number(bits: u64) -> bool {
    bits <= 0x7FF0_0000_0000_0000 || 0x8000_0000_0000_0000 <= bits <= 0xFFF0_0000_0000_0000
}

/// Numbers without a sign are ordered as their bits, those with one the other way round, and all of
/// the latter come before the former, but for the two zeros, which are equal. What is not a number is
/// neither below anything nor at least anything.
pub proof fn law_order_of_bits(a: Score, b: Score, less: bool, at_least: bool)
    requires
        call_ensures(Score::is_below, (a, b), less),
        call_ensures(Score::is_at_least, (a, b), at_least),
    ensures
        !is_number(a.bits) || !is_number(b.bits) ==> !less && !at_least,
        is_number(a.bits) && is_number(b.bits) ==> {
            let sign: u64 = 0x8000_0000_0000_0000;
            &&& at_least == !less
            &&& a.bits < sign && b.bits < sign ==> less == (a.bits < b.bits)
            &&& a.bits >= sign && b.bits >= sign ==> less == (a.bits > b.bits)
            &&& a.bits >= sign && b.bits < sign ==> less == (a.bits > sign || b.bits > 0)
            &&& a.bits < sign && b.bits >= sign ==> !less
        },
        less == a.below(b),
        at_least == a.reaches(b),
{
}

} // verus!
