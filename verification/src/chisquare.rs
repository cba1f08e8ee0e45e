//! The chi-square test against the uniform distribution.
//!
//! With `t` symbols in the buffer and an alphabet of `a` symbols, each symbol
//! is expected `t / a` times, and the statistic is the sum of
//! `(count - t / a)^2 / (t / a)` over all symbols. Each term equals
//! `(a * count - t)^2 / (a * t)`, so the statistic is one exact fraction.

use crate::frequency::{
    alphabet_size, bit_counts, byte_counts, count_sum, lemma_bits_partition,
    lemma_counts_sum_to_total, symbol_count, symbol_total,
};
use crate::ratio::{Fraction, Ratio};
use crate::wide::U256;
use vstd::prelude::*;

verus! {

/// The squared deviation of symbol `v` from its expected count, scaled by the
/// square of the alphabet size `a`: with `t` symbols in all, the expected count
/// is `t / a`, and `(count - t / a)^2 * a^2 = (a * count - t)^2`.
pub open spec fn squared_deviation(s: Seq<u8>, bit_mode: bool, v: int) -> int {
    let d = alphabet_size(bit_mode) * symbol_count(s, bit_mode, v) - symbol_total(s, bit_mode);
    d * d
}

/// The scaled squared deviations of the symbols below `k`, added up.
pub open spec fn deviation_sum(s: Seq<u8>, bit_mode: bool, k: nat) -> int
    decreases k,
{
    if k == 0 {
        0
    } else {
        deviation_sum(s, bit_mode, (k - 1) as nat) + squared_deviation(s, bit_mode, k - 1)
    }
}

/// The numerator of the chi-square statistic: the scaled squared deviations of
/// all symbols, those that do not occur included.
pub open spec fn chi_numerator(s: Seq<u8>, bit_mode: bool) -> int {
    deviation_sum(s, bit_mode, alphabet_size(bit_mode))
}

/// The denominator of the chi-square statistic. Each term
/// `(count - t / a)^2 / (t / a)` equals `(a * count - t)^2 / (a * t)`.
pub open spec fn chi_denominator(s: Seq<u8>, bit_mode: bool) -> nat {
    alphabet_size(bit_mode) * symbol_total(s, bit_mode)
}

/// The degrees of freedom of the test: one less than the alphabet size.
pub open spec fn degrees_of_freedom(bit_mode: bool) -> nat {
    (alphabet_size(bit_mode) - 1) as nat
}

/// The chi-square statistic of `s` against the uniform distribution over the
/// alphabet: the sum over all symbols of `(count - expected)^2 / expected`,
/// as one fraction. For an empty buffer it is 0 / 0.
pub open spec fn chisquare_of(s: Seq<u8>, bit_mode: bool) -> Fraction {
    Fraction { num: chi_numerator(s, bit_mode) as nat, den: chi_denominator(s, bit_mode) }
}

/// The statistic less the degrees of freedom, where that difference exists and
/// is not negative. Its square root is the normal deviate from which the
/// p-value is taken.
pub open spec fn excess_of(s: Seq<u8>, bit_mode: bool) -> Option<Fraction> {
    let num = chi_numerator(s, bit_mode);
    let den = chi_denominator(s, bit_mode);
    let floor = degrees_of_freedom(bit_mode) * den;
    if den > 0 && num >= floor {
        Some(Fraction { num: (num - floor) as nat, den })
    } else {
        None
    }
}

/// The squared deviations of the symbols below `k` from a whole expected count
/// `e`, added up.
pub open spec fn whole_deviation_sum(s: Seq<u8>, bit_mode: bool, e: int, k: nat) -> int
    decreases k,
{
    if k == 0 {
        0
    } else {
        whole_deviation_sum(s, bit_mode, e, (k - 1) as nat) + (symbol_count(s, bit_mode, k - 1)
            - e) * (symbol_count(s, bit_mode, k - 1) - e)
    }
}

/// A sum of squares is not negative.
proof fn lemma_deviation_sum_not_negative(s: Seq<u8>, bit_mode: bool, k: nat)
    ensures
        deviation_sum(s, bit_mode, k) >= 0,
    decreases k,
{
    if k > 0 {
        let d = alphabet_size(bit_mode) * symbol_count(s, bit_mode, k - 1) - symbol_total(
            s,
            bit_mode,
        );
        lemma_deviation_sum_not_negative(s, bit_mode, (k - 1) as nat);
        assert(d * d >= 0) by (nonlinear_arith);
    }
}

/// The chi-square statistic is never negative, and it is a number as soon as
/// the buffer holds a byte.
pub proof fn lemma_chisquare_not_negative(s: Seq<u8>, bit_mode: bool)
    ensures
        chi_numerator(s, bit_mode) >= 0,
        s.len() > 0 ==> chisquare_of(s, bit_mode).at_least(0),
{
    lemma_deviation_sum_not_negative(s, bit_mode, alphabet_size(bit_mode));
}

/// The excess exists exactly when the statistic is a number no smaller than
/// the degrees of freedom, and then the square root that leads to the p-value
/// is that of a number that is not negative.
pub proof fn lemma_excess_exists(s: Seq<u8>, bit_mode: bool)
    ensures
        excess_of(s, bit_mode) is Some <==> chisquare_of(s, bit_mode).at_least(
            degrees_of_freedom(bit_mode),
        ),
        excess_of(s, bit_mode) is Some ==> excess_of(s, bit_mode)->0.at_least(0),
{
    lemma_deviation_sum_not_negative(s, bit_mode, alphabet_size(bit_mode));
}

/// With `t = a * e`, the scaled squared deviations are `a * a` times the plain
/// ones.
proof fn lemma_deviation_sum_scales(s: Seq<u8>, bit_mode: bool, e: int, k: nat)
    requires
        symbol_total(s, bit_mode) == alphabet_size(bit_mode) * e,
    ensures
        deviation_sum(s, bit_mode, k) == (alphabet_size(bit_mode) * alphabet_size(bit_mode))
            * whole_deviation_sum(s, bit_mode, e, k),
    decreases k,
{
    let a = alphabet_size(bit_mode) as int;
    if k > 0 {
        let c = symbol_count(s, bit_mode, k - 1) as int;
        let before = whole_deviation_sum(s, bit_mode, e, (k - 1) as nat);
        lemma_deviation_sum_scales(s, bit_mode, e, (k - 1) as nat);
        assert((a * c - a * e) * (a * c - a * e) == (a * a) * ((c - e) * (c - e)))
            by (nonlinear_arith);
        assert((a * a) * (before + (c - e) * (c - e)) == (a * a) * before + (a * a) * ((c - e) * (c
            - e))) by (nonlinear_arith);
    }
}

/// Where the expected count `e` of each symbol is a whole number, the
/// statistic is the sum of `(count - e)^2` over all symbols, divided by `e`.
pub proof fn lemma_chisquare_of_whole_expectation(s: Seq<u8>, bit_mode: bool, e: nat)
    requires
        symbol_total(s, bit_mode) == alphabet_size(bit_mode) * e,
    ensures
        chisquare_of(s, bit_mode).num * e == chisquare_of(s, bit_mode).den * whole_deviation_sum(
            s,
            bit_mode,
            e as int,
            alphabet_size(bit_mode),
        ),
{
    let a = alphabet_size(bit_mode) as int;
    let plain = whole_deviation_sum(s, bit_mode, e as int, alphabet_size(bit_mode));
    lemma_deviation_sum_scales(s, bit_mode, e as int, alphabet_size(bit_mode));
    lemma_deviation_sum_not_negative(s, bit_mode, alphabet_size(bit_mode));
    assert(((a * a) * plain) * e == (a * (a * e)) * plain) by (nonlinear_arith);
}

/// Where no symbol below `k` occurs, the squared deviations from zero add up
/// to zero.
proof fn lemma_whole_deviation_sum_of_no_symbols(s: Seq<u8>, bit_mode: bool, k: nat)
    requires
        count_sum(s, bit_mode, k) == 0,
    ensures
        whole_deviation_sum(s, bit_mode, 0, k) == 0,
    decreases k,
{
    if k > 0 {
        let c = symbol_count(s, bit_mode, k - 1) as int;
        lemma_whole_deviation_sum_of_no_symbols(s, bit_mode, (k - 1) as nat);
        assert((c - 0) * (c - 0) == 0) by (nonlinear_arith)
            requires
                c == 0,
        ;
    }
}

/// The statistic of an empty buffer is 0 / 0, and it has no excess.
pub proof fn lemma_chisquare_of_empty_buffer(s: Seq<u8>, bit_mode: bool)
    requires
        s.len() == 0,
    ensures
        chisquare_of(s, bit_mode) == (Fraction { num: 0, den: 0 }),
        excess_of(s, bit_mode) is None,
{
    let a = alphabet_size(bit_mode);
    let plain = whole_deviation_sum(s, bit_mode, 0, a);
    lemma_counts_sum_to_total(s, bit_mode);
    lemma_whole_deviation_sum_of_no_symbols(s, bit_mode, a);
    lemma_deviation_sum_scales(s, bit_mode, 0, a);
    assert((a * a) * plain == 0) by (nonlinear_arith)
        requires
            plain == 0,
    ;
}

/// The scaled squared deviation of one symbol that was seen `observed` times
/// among `total`, for an alphabet of `alphabet` symbols.
fn scaled_squared_deviation(observed: u128, alphabet: u128, total: u128) -> (sq: U256)
    requires
        alphabet <= 256,
        observed <= 0x8_0000_0000_0000_0000,
        total <= 0x8_0000_0000_0000_0000,
    ensures
        sq@ == (alphabet * observed - total) * (alphabet * observed - total),
        sq@ <= 0x40_0000_0000_0000_0000_0000_0000_0000_0000_0000_0000,
{
    proof {
        assert(alphabet * observed <= 256 * 0x8_0000_0000_0000_0000) by (nonlinear_arith)
            requires
                alphabet <= 256,
                observed <= 0x8_0000_0000_0000_0000,
        ;
    }
    let scaled = alphabet * observed;
    let d = if scaled >= total {
        scaled - total
    } else {
        total - scaled
    };
    proof {
        assert(d * d <= 0x800_0000_0000_0000_0000 * 0x800_0000_0000_0000_0000)
            by (nonlinear_arith)
            requires
                0 <= d <= 0x800_0000_0000_0000_0000,
        ;
        assert(d * d == (alphabet * observed - total) * (alphabet * observed - total))
            by (nonlinear_arith)
            requires
                d == alphabet * observed - total || d == total - alphabet * observed,
        ;
    }
    U256::widening_mul(d, d)
}

/// From the numerator and the denominator of the statistic: the statistic, and
/// its excess over the degrees of freedom `dof` where it has one.
fn with_excess(num: U256, den: u128, dof: u128) -> (r: (Ratio, Option<Ratio>))
    requires
        dof <= 255,
        den <= 0x800_0000_0000_0000_0000,
    ensures
        r.0@ == (Fraction { num: num@, den: den as nat }),
        r.1.deep_view() == (if den > 0 && num@ >= dof * den {
            Some(Fraction { num: (num@ - dof * den) as nat, den: den as nat })
        } else {
            None
        }),
{
    proof {
        assert(dof * den <= 255 * 0x800_0000_0000_0000_0000) by (nonlinear_arith)
            requires
                dof <= 255,
                den <= 0x800_0000_0000_0000_0000,
        ;
    }
    let floor = U256::from_u128(dof * den);
    let excess = if den > 0 && num.at_least(&floor) {
        Some(Ratio { num: num.checked_sub(&floor).unwrap(), den })
    } else {
        None
    };
    (Ratio { num, den }, excess)
}

/// The chi-square test of the buffer against the uniform distribution over the
/// alphabet.
///
/// The first part of the result is the statistic, the sum over all symbols of
/// `(observed - expected)^2 / expected`, as an exact fraction; for an empty
/// buffer it is 0 / 0. The second part is the statistic less the degrees of
/// freedom, whose square root is the normal deviate that the p-value is taken
/// from; it is `None` where the statistic is below the degrees of freedom or
/// is not a number, and then there is no p-value.
pub fn calculate_chisquare(data: &[u8], bit_mode: bool) -> (r: (Ratio, Option<Ratio>))
    ensures
        r.0@ == chisquare_of(data@, bit_mode),
        r.1.deep_view() == excess_of(data@, bit_mode),
{
    if bit_mode {
        let count = bit_counts(data);
        let total = 8 * (data.len() as u128);
        proof {
            reveal_with_fuel(deviation_sum, 3);
            lemma_bits_partition(data@);
        }
        let zeros = scaled_squared_deviation(count[0], 2, total);
        let ones = scaled_squared_deviation(count[1], 2, total);
        let num = zeros.checked_add(&ones).unwrap();
        with_excess(num, 2 * total, 1)
    } else {
        let count = byte_counts(data);
        let total = data.len() as u128;
        let mut num = U256::from_u128(0);
        let mut v: usize = 0;
        while v < 256
            invariant
                v <= 256,
                total == data@.len(),
                total <= usize::MAX,
                forall|w: int|
                    0 <= w < 256 ==> #[trigger] count[w] == symbol_count(data@, false, w),
                num@ == deviation_sum(data@, false, v as nat),
                num@ <= v * 0x40_0000_0000_0000_0000_0000_0000_0000_0000_0000_0000,
            decreases 256 - v,
        {
            let sq = scaled_squared_deviation(count[v] as u128, 256, total);
            num = num.checked_add(&sq).unwrap();
            v += 1;
        }
        with_excess(num, 256 * total, 255)
    }
}

} // verus!
