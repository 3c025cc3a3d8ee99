use vstd::prelude::*;

verus! {

/// An exact similarity score: the ratio `num / den` of two counts, kept
/// unreduced so no precision is lost. A well-formed score always has
/// `den >= 1` and `num <= den`, so its value lies in `[0, 1]`.
#[derive(Clone, Copy, Debug, PartialEq, Eq, Structural)]
pub struct Score {
    pub num: usize,
    pub den: usize,
}

/// `a <= b` as rational numbers, by cross-multiplication.
pub open spec fn score_le(a: Score, b: Score) -> bool {
    a.num * b.den <= b.num * a.den
}

/// `a < b` as rational numbers, by cross-multiplication.
pub open spec fn score_lt(a: Score, b: Score) -> bool {
    a.num * b.den < b.num * a.den
}

impl Score {
    pub open spec fn wf(self) -> bool {
        1 <= self.den && self.num <= self.den
    }

    /// True exactly when the score's value is 1.
    pub open spec fn spec_is_one(self) -> bool {
        self.num == self.den
    }

    /// True exactly when the score's value is 0.
    pub open spec fn spec_is_zero(self) -> bool {
        self.num == 0
    }

    /// Build a score from an overlap count `num` out of a base size `den`.
    /// An empty base (`den == 0`) yields the zero score by convention,
    /// never a division by zero.
    pub fn new(num: usize, den: usize) -> (r: Score)
        requires
            num <= den,
        ensures
            r.wf(),
            den == 0 ==> r == (Score { num: 0, den: 1 }),
            den >= 1 ==> r == (Score { num, den }),
    {
        if den == 0 {
            Score { num: 0, den: 1 }
        } else {
            Score { num, den }
        }
    }

    /// The zero score.
    pub fn zero() -> (r: Score)
        ensures
            r.wf(),
            r.spec_is_zero(),
            r == (Score { num: 0usize, den: 1usize }),
    {
        Score { num: 0, den: 1 }
    }

    pub fn is_one(&self) -> (r: bool)
        ensures
            r == self.spec_is_one(),
    {
        self.num == self.den
    }

    pub fn is_zero(&self) -> (r: bool)
        ensures
            r == self.spec_is_zero(),
    {
        self.num == 0
    }

    /// `self <= other` as rational numbers.
    pub fn le(&self, other: &Score) -> (r: bool)
        ensures
            r == score_le(*self, *other),
    {
        proof {
            lemma_cross_mul_fits(*self, *other);
            lemma_cross_mul_fits(*other, *self);
        }
        (self.num as u128) * (other.den as u128) <= (other.num as u128) * (self.den as u128)
    }

    /// `self < other` as rational numbers.
    pub fn lt(&self, other: &Score) -> (r: bool)
        ensures
            r == score_lt(*self, *other),
    {
        proof {
            lemma_cross_mul_fits(*self, *other);
            lemma_cross_mul_fits(*other, *self);
        }
        (self.num as u128) * (other.den as u128) < (other.num as u128) * (self.den as u128)
    }
}

/// The cross-product of two scores' counts fits in `u128`, since each
/// count fits in 64 bits.
proof fn lemma_cross_mul_fits(a: Score, b: Score)
    ensures
        a.num * b.den <= u128::MAX,
{
    assert(a.num * b.den <= u128::MAX) by (nonlinear_arith)
        requires
            a.num <= u64::MAX,
            b.den <= u64::MAX,
    ;
}

} // verus!
