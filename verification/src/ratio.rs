//! Exact fractions, the form in which the statistics are handed out.

use crate::wide::{lemma_words_are_unique, U256};
use vstd::prelude::*;

verus! {

/// A fraction `num / den` of two natural numbers, as it was computed: it is
/// not reduced, and two fractions are the same when their numerators and their
/// denominators are. A denominator of zero stands for a quotient that does not
/// exist, as with the statistics of an empty buffer.
pub struct Fraction {
    /// The numerator.
    pub num: nat,
    /// The denominator.
    pub den: nat,
}

impl Fraction {
    /// The fraction is a number no larger than `bound`.
    pub open spec fn at_most(self, bound: nat) -> bool {
        self.den > 0 && self.num <= bound * self.den
    }

    /// The fraction is a number no smaller than `bound`.
    pub open spec fn at_least(self, bound: nat) -> bool {
        self.den > 0 && self.num >= bound * self.den
    }
}

/// An exact fraction as the statistics hand it out. Its value is
/// `num / den`; where `den` is zero it has none.
#[derive(Clone, Copy, Debug, PartialEq, Eq, Structural)]
pub struct Ratio {
    /// The numerator.
    pub num: U256,
    /// The denominator.
    pub den: u128,
}

impl View for Ratio {
    type V = Fraction;

    open spec fn view(&self) -> Fraction {
        Fraction { num: self.num@, den: self.den as nat }
    }
}

impl DeepView for Ratio {
    type V = Fraction;

    open spec fn deep_view(&self) -> Fraction {
        self@
    }
}

/// A fraction is written in one way only.
pub proof fn lemma_ratio_is_unique(a: Ratio, b: Ratio)
    requires
        a@ == b@,
    ensures
        a == b,
{
    lemma_words_are_unique(a.num, b.num);
}

impl Ratio {
    /// The fraction of two words.
    pub fn new(num: u128, den: u128) -> (r: Ratio)
        ensures
            r@ == (Fraction { num: num as nat, den: den as nat }),
    {
        Ratio { num: U256::from_u128(num), den }
    }
}

} // verus!
