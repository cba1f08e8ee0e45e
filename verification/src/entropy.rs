//! The terms of the Shannon entropy.
//!
//! The entropy is `-sum(p * log2(p))` over the shares `p` of the symbols that
//! occur. The logarithm has no exact value, so the shares are computed here
//! and proved to be a probability distribution; the sum is left to the caller.

use crate::frequency::{
    alphabet_size, bit_counts, byte_counts, count_sum, lemma_count_sum_bounded,
    lemma_counts_sum_to_total, numerator_sum, occurrences, probabilities, symbol_count,
    symbol_total,
};
use crate::ratio::{Fraction, Ratio};
use vstd::arithmetic::power2::{lemma2_to64, pow2};
use vstd::prelude::*;

verus! {

/// The fraction belongs to a symbol that occurs.
pub open spec fn occurs(p: Fraction) -> bool {
    p.num > 0
}

/// The terms of the entropy of `s`: the fractions of the symbols that occur,
/// in rising order of the symbol. The entropy is the sum of `-p * log2(p)`
/// over these fractions `p`; a symbol that does not occur adds nothing to it
/// and has no term. An empty buffer has no terms.
pub open spec fn entropy_terms_of(s: Seq<u8>, bit_mode: bool) -> Seq<Fraction> {
    probabilities(s, bit_mode).filter(|p: Fraction| occurs(p))
}

/// The entropy of a uniform source over the alphabet, in bits for each
/// symbol: the logarithm to base 2 of the alphabet size.
pub open spec fn symbol_bits_of(bit_mode: bool) -> nat {
    if bit_mode {
        1
    } else {
        8
    }
}

/// The alphabet has two to the power of `symbol_bits_of` symbols.
pub proof fn lemma_symbol_bits_is_log2(bit_mode: bool)
    ensures
        pow2(symbol_bits_of(bit_mode)) == alphabet_size(bit_mode),
{
    lemma2_to64();
}

/// The terms up to the next symbol are the terms so far, and the fraction of
/// that symbol if it occurs.
proof fn lemma_terms_step(all: Seq<Fraction>, k: int)
    requires
        0 <= k < all.len(),
    ensures
        all.take(k + 1).filter(|p: Fraction| occurs(p)) == if occurs(all[k]) {
            all.take(k).filter(|p: Fraction| occurs(p)).push(all[k])
        } else {
            all.take(k).filter(|p: Fraction| occurs(p))
        },
{
    reveal(Seq::filter);
    assert(all.take(k + 1).drop_last() =~= all.take(k));
}

/// The terms among the first `k` fractions are no more than `k`, each is the
/// share of a symbol that occurs, and their numerators add up to the counts of
/// the symbols below `k`.
proof fn lemma_terms_of_prefix(s: Seq<u8>, bit_mode: bool, k: nat)
    requires
        k <= alphabet_size(bit_mode),
    ensures
        ({
            let terms = probabilities(s, bit_mode).take(k as int).filter(|p: Fraction| occurs(p));
            &&& terms.len() <= k
            &&& numerator_sum(terms) == count_sum(s, bit_mode, k)
            &&& forall|i: int|
                0 <= i < terms.len() ==> 0 < (#[trigger] terms[i]).num <= terms[i].den
                    && terms[i].den == symbol_total(s, bit_mode)
        }),
    decreases k,
{
    let all = probabilities(s, bit_mode);
    if k == 0 {
        reveal(Seq::filter);
        assert(all.take(0).filter(|p: Fraction| occurs(p)) =~= Seq::<Fraction>::empty());
    } else {
        let before = all.take(k - 1).filter(|p: Fraction| occurs(p));
        lemma_terms_of_prefix(s, bit_mode, (k - 1) as nat);
        lemma_terms_step(all, k - 1);
        lemma_count_sum_bounded(s, bit_mode, k);
        if occurs(all[k - 1]) {
            assert(before.push(all[k - 1]).drop_last() =~= before);
        }
    }
}

/// The terms of a buffer that is not empty are the probabilities of a
/// distribution over the symbols that occur: there is at least one term and
/// no more than the alphabet has symbols, each term is above zero and no
/// larger than one, and the terms add up to one.
pub proof fn lemma_terms_form_a_distribution(s: Seq<u8>, bit_mode: bool)
    requires
        s.len() > 0,
    ensures
        0 < entropy_terms_of(s, bit_mode).len() <= alphabet_size(bit_mode),
        forall|i: int|
            0 <= i < entropy_terms_of(s, bit_mode).len() ==> 0 < (#[trigger] entropy_terms_of(
                s,
                bit_mode,
            )[i]).num <= entropy_terms_of(s, bit_mode)[i].den && entropy_terms_of(
                s,
                bit_mode,
            )[i].den == symbol_total(s, bit_mode),
        numerator_sum(entropy_terms_of(s, bit_mode)) == symbol_total(s, bit_mode),
{
    let all = probabilities(s, bit_mode);
    lemma_terms_of_prefix(s, bit_mode, alphabet_size(bit_mode));
    lemma_counts_sum_to_total(s, bit_mode);
    assert(all.take(alphabet_size(bit_mode) as int) =~= all);
}

/// An empty buffer has no terms: its entropy is the empty sum.
pub proof fn lemma_empty_buffer_has_no_terms(s: Seq<u8>, bit_mode: bool)
    requires
        s.len() == 0,
    ensures
        entropy_terms_of(s, bit_mode) == Seq::<Fraction>::empty(),
{
    let all = probabilities(s, bit_mode);
    let terms = entropy_terms_of(s, bit_mode);
    lemma_terms_of_prefix(s, bit_mode, alphabet_size(bit_mode));
    lemma_counts_sum_to_total(s, bit_mode);
    assert(all.take(alphabet_size(bit_mode) as int) =~= all);
    if terms.len() > 0 {
        assert(terms.last().num > 0);
    }
    assert(terms =~= Seq::<Fraction>::empty());
}

/// In a buffer that repeats one byte, that byte occurs at every position and
/// no other byte occurs.
proof fn lemma_occurrences_in_constant_buffer(s: Seq<u8>, v: u8)
    requires
        s.len() > 0,
        forall|i: int| 0 <= i < s.len() ==> #[trigger] s[i] == s[0],
    ensures
        occurrences(s, v) == if v == s[0] {
            s.len()
        } else {
            0
        },
    decreases s.len(),
{
    if s.len() > 1 {
        let head = s.drop_last();
        assert(head[0] == s[0]);
        assert forall|i: int| 0 <= i < head.len() implies #[trigger] head[i] == head[0] by {
            assert(head[i] == s[i]);
        }
        lemma_occurrences_in_constant_buffer(head, v);
    } else {
        assert(occurrences(s.drop_last(), v) == 0);
    }
}

/// The terms of a buffer that repeats one byte, among the fractions of the
/// byte values below `k`: the one term of that byte, once `k` is above it.
proof fn lemma_terms_of_constant_prefix(s: Seq<u8>, k: nat)
    requires
        s.len() > 0,
        forall|i: int| 0 <= i < s.len() ==> #[trigger] s[i] == s[0],
        k <= 256,
    ensures
        probabilities(s, false).take(k as int).filter(|p: Fraction| occurs(p)) == if k > s[0] {
            seq![Fraction { num: s.len(), den: s.len() }]
        } else {
            Seq::<Fraction>::empty()
        },
    decreases k,
{
    let all = probabilities(s, false);
    if k == 0 {
        reveal(Seq::filter);
        assert(all.take(0).filter(|p: Fraction| occurs(p)) =~= Seq::<Fraction>::empty());
    } else {
        lemma_terms_of_constant_prefix(s, (k - 1) as nat);
        lemma_terms_step(all, k - 1);
        lemma_occurrences_in_constant_buffer(s, (k - 1) as u8);
        if k - 1 == s[0] {
            assert(Seq::<Fraction>::empty().push(all[k - 1]) =~= seq![all[k - 1]]);
        }
    }
}

/// A buffer that repeats one byte has a single term in byte mode, and that
/// term is one: its entropy is zero.
pub proof fn lemma_constant_buffer_has_one_term(s: Seq<u8>)
    requires
        s.len() > 0,
        forall|i: int| 0 <= i < s.len() ==> #[trigger] s[i] == s[0],
    ensures
        entropy_terms_of(s, false) == seq![Fraction { num: s.len(), den: s.len() }],
{
    lemma_terms_of_constant_prefix(s, 256);
    assert(probabilities(s, false).take(256) =~= probabilities(s, false));
}

/// The bits that one symbol of a uniform source over the alphabet carries:
/// 1 in bit mode, 8 in byte mode.
pub fn symbol_bits(bit_mode: bool) -> (bits: u8)
    ensures
        bits == symbol_bits_of(bit_mode),
{
    if bit_mode {
        1
    } else {
        8
    }
}

/// The terms of the Shannon entropy of the buffer: for each symbol that
/// occurs, in rising order, its share of the buffer as an exact fraction.
///
/// The entropy in bits for each symbol is the sum of `-p * log2(p)` over the
/// fractions `p` that are returned. Symbols that do not occur are left out, so
/// that no term is the logarithm of zero; an empty buffer has no terms, and
/// the empty sum is zero.
pub fn entropy_terms(data: &[u8], bit_mode: bool) -> (terms: Vec<Ratio>)
    ensures
        terms.deep_view() == entropy_terms_of(data@, bit_mode),
{
    let ghost all = probabilities(data@, bit_mode);
    let mut terms: Vec<Ratio> = Vec::new();
    proof {
        reveal(Seq::filter);
        assert(all.take(0).filter(|p: Fraction| occurs(p)) =~= Seq::<Fraction>::empty());
        assert(terms.deep_view() =~= Seq::<Fraction>::empty());
    }
    if bit_mode {
        let count = bit_counts(data);
        let total = 8 * (data.len() as u128);
        proof {
            lemma_terms_step(all, 0);
            lemma_terms_step(all, 1);
            assert(all.take(2) =~= all);
        }
        if count[0] > 0 {
            let ghost before = terms.deep_view();
            terms.push(Ratio::new(count[0], total));
            assert(terms.deep_view() =~= before.push(all[0]));
        }
        if count[1] > 0 {
            let ghost before = terms.deep_view();
            terms.push(Ratio::new(count[1], total));
            assert(terms.deep_view() =~= before.push(all[1]));
        }
    } else {
        let count = byte_counts(data);
        let total = data.len() as u128;
        let mut v: usize = 0;
        while v < 256
            invariant
                v <= 256,
                total == data@.len(),
                all == probabilities(data@, false),
                forall|w: int|
                    0 <= w < 256 ==> #[trigger] count[w] == symbol_count(data@, false, w),
                terms.deep_view() == all.take(v as int).filter(|p: Fraction| occurs(p)),
            decreases 256 - v,
        {
            proof {
                lemma_terms_step(all, v as int);
            }
            if count[v] > 0 {
                let ghost before = terms.deep_view();
                terms.push(Ratio::new(count[v] as u128, total));
                assert(terms.deep_view() =~= before.push(all[v as int]));
            }
            v += 1;
        }
        proof {
            assert(all.take(256) =~= all);
        }
    }
    terms
}

} // verus!
