//! The arithmetic mean of the bytes.

use crate::ratio::{Fraction, Ratio};
use vstd::prelude::*;

verus! {

/// The sum of the bytes of `s`.
pub open spec fn byte_sum(s: Seq<u8>) -> nat
    decreases s.len(),
{
    if s.len() == 0 {
        0
    } else {
        byte_sum(s.drop_last()) + s.last() as nat
    }
}

/// The arithmetic mean of the bytes of `s`: their sum over their number. For
/// an empty buffer it is 0 / 0.
pub open spec fn mean_of(s: Seq<u8>) -> Fraction {
    Fraction { num: byte_sum(s), den: s.len() }
}

/// The sum of the bytes is no larger than 255 for each byte.
pub proof fn lemma_byte_sum_bounded(s: Seq<u8>)
    ensures
        byte_sum(s) <= 255 * s.len(),
    decreases s.len(),
{
    if s.len() > 0 {
        lemma_byte_sum_bounded(s.drop_last());
    }
}

/// The mean of a buffer that is not empty is a number between 0 and 255.
pub proof fn lemma_mean_is_a_byte_value(s: Seq<u8>)
    requires
        s.len() > 0,
    ensures
        mean_of(s).at_least(0),
        mean_of(s).at_most(255),
{
    lemma_byte_sum_bounded(s);
}

/// The arithmetic mean of the bytes of the buffer, whatever the mode of the
/// analysis, as the exact fraction of their sum and their number.
pub fn calculate_mean(data: &[u8]) -> (mean: Ratio)
    ensures
        mean@ == mean_of(data@),
{
    let mut sum: u128 = 0;
    let mut i: usize = 0;
    while i < data.len()
        invariant
            i <= data.len(),
            sum == byte_sum(data@.take(i as int)),
            sum <= 255 * i,
        decreases data.len() - i,
    {
        proof {
            assert(data@.take(i + 1).drop_last() =~= data@.take(i as int));
        }
        sum = sum + data[i] as u128;
        i += 1;
    }
    proof {
        assert(data@.take(data.len() as int) =~= data@);
    }
    Ratio::new(sum, data.len() as u128)
}

} // verus!
