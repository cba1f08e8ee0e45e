//! The whole analysis of a buffer.

use crate::chisquare::{
    calculate_chisquare, chisquare_of, excess_of, lemma_chisquare_of_empty_buffer,
};
use crate::correlation::{
    lemma_coefficient_is_unique, serial_correlation, serial_correlation_of, Correlation,
    SerialCorrelation,
};
use crate::entropy::{
    entropy_terms, entropy_terms_of, lemma_empty_buffer_has_no_terms, symbol_bits,
    symbol_bits_of,
};
use crate::frequency::{
    bit_occurrences, bit_rows, bit_table, byte_occurrences, byte_rows, byte_table,
};
use crate::mean::{calculate_mean, mean_of};
use crate::pi::{estimate_pi, pi_estimate_of};
use crate::ratio::{lemma_ratio_is_unique, Fraction, Ratio};
use vstd::prelude::*;

verus! {

/// The statistics of one buffer, each in exact form.
#[derive(Debug, Clone, PartialEq, Eq)]
pub struct EntStats {
    /// The terms of the Shannon entropy: the share of each symbol that occurs.
    /// The entropy in bits for each symbol is the sum of `-p * log2(p)` over
    /// them.
    pub entropy_terms: Vec<Ratio>,
    /// The entropy of a uniform source, in bits for each symbol: 8 in byte
    /// mode, 1 in bit mode. With entropy `h`, an ideal coder saves the share
    /// `1 - h / symbol_bits` of the space.
    pub symbol_bits: u8,
    /// The chi-square statistic against the uniform distribution.
    pub chisquare: Ratio,
    /// The statistic less the degrees of freedom, where that is a number and
    /// not negative: the square of the normal deviate of the p-value.
    pub chisquare_excess: Option<Ratio>,
    /// The arithmetic mean of the bytes.
    pub mean: Ratio,
    /// The Monte Carlo estimate of pi.
    pub pi_estimate: Ratio,
    /// The correlation of each byte with the byte before it.
    pub serial_correlation: SerialCorrelation,
    /// In byte mode, the value, count and share of each of the 256 byte
    /// values.
    pub byte_frequencies: Option<Vec<(u8, usize, Ratio)>>,
    /// In bit mode, the count and share of bit 0 and of bit 1.
    pub bit_frequencies: Option<[(u128, Ratio); 2]>,
}

/// What an `EntStats` holds, as mathematical values.
pub struct Analysis {
    /// The shares of the symbols that occur.
    pub entropy_terms: Seq<Fraction>,
    /// The logarithm to base 2 of the alphabet size.
    pub symbol_bits: nat,
    /// The chi-square statistic.
    pub chisquare: Fraction,
    /// The statistic less the degrees of freedom, where it is not negative.
    pub chisquare_excess: Option<Fraction>,
    /// The arithmetic mean of the bytes.
    pub mean: Fraction,
    /// The estimate of pi.
    pub pi_estimate: Fraction,
    /// The serial correlation coefficient.
    pub serial_correlation: Correlation,
    /// In byte mode, the value, count and share of each byte value.
    pub byte_frequencies: Option<Seq<(u8, nat, Fraction)>>,
    /// In bit mode, the count and share of each bit value.
    pub bit_frequencies: Option<Seq<(nat, Fraction)>>,
}

impl View for EntStats {
    type V = Analysis;

    open spec fn view(&self) -> Analysis {
        Analysis {
            entropy_terms: self.entropy_terms.deep_view(),
            symbol_bits: self.symbol_bits as nat,
            chisquare: self.chisquare@,
            chisquare_excess: self.chisquare_excess.deep_view(),
            mean: self.mean@,
            pi_estimate: self.pi_estimate@,
            serial_correlation: self.serial_correlation@,
            byte_frequencies: match self.byte_frequencies {
                Some(table) => Some(byte_rows(table@)),
                None => None,
            },
            bit_frequencies: match self.bit_frequencies {
                Some(table) => Some(bit_rows(table@)),
                None => None,
            },
        }
    }
}

/// The statistics of the buffer `s` in the given mode.
pub open spec fn analysis_of(s: Seq<u8>, bit_mode: bool) -> Analysis {
    Analysis {
        entropy_terms: entropy_terms_of(s, bit_mode),
        symbol_bits: symbol_bits_of(bit_mode),
        chisquare: chisquare_of(s, bit_mode),
        chisquare_excess: excess_of(s, bit_mode),
        mean: mean_of(s),
        pi_estimate: pi_estimate_of(s),
        serial_correlation: serial_correlation_of(s),
        byte_frequencies: if bit_mode {
            None
        } else {
            Some(byte_table(s))
        },
        bit_frequencies: if bit_mode {
            Some(bit_table(s))
        } else {
            None
        },
    }
}

impl EntStats {
    /// What holds of every result of an analysis: exactly one of the two
    /// frequency tables is filled, the table of byte mode has 256 rows, the
    /// symbol bits are those of the mode of the table, and the numerator of the
    /// serial correlation is written in its canonical way.
    pub open spec fn well_formed(self) -> bool {
        &&& self.byte_frequencies is Some <==> self.bit_frequencies is None
        &&& self.byte_frequencies is Some ==> self.byte_frequencies->0@.len() == 256
            && self.symbol_bits == 8
        &&& self.bit_frequencies is Some ==> self.symbol_bits == 1
        &&& self.serial_correlation.is_canonical()
    }

    /// Computes every statistic of the buffer, over its bytes or, in bit mode,
    /// over its bits.
    ///
    /// The mean, the estimate of pi and the serial correlation are taken over
    /// the bytes in either mode. Of the two frequency tables the one of the
    /// mode is filled. Nothing fails: what does not exist for a buffer (the
    /// mean of an empty one, the correlation of a constant one) is returned as
    /// such.
    pub fn from_data(data: &[u8], bit_mode: bool) -> (stats: EntStats)
        ensures
            stats.well_formed(),
            stats@ == analysis_of(data@, bit_mode),
            stats.byte_frequencies is Some <==> !bit_mode,
    {
        let terms = entropy_terms(data, bit_mode);
        let bits = symbol_bits(bit_mode);
        let (chisquare, chisquare_excess) = calculate_chisquare(data, bit_mode);
        let mean = calculate_mean(data);
        let pi_estimate = estimate_pi(data);
        let serial_correlation = serial_correlation(data);
        let (byte_frequencies, bit_frequencies) = if bit_mode {
            (None, Some(bit_occurrences(data)))
        } else {
            (Some(byte_occurrences(data)), None)
        };
        EntStats {
            entropy_terms: terms,
            symbol_bits: bits,
            chisquare,
            chisquare_excess,
            mean,
            pi_estimate,
            serial_correlation,
            byte_frequencies,
            bit_frequencies,
        }
    }
}

impl EntStats {
    /// Both hold the same values, word for word.
    pub open spec fn same_as(self, other: EntStats) -> bool {
        &&& self.entropy_terms@ == other.entropy_terms@
        &&& self.symbol_bits == other.symbol_bits
        &&& self.chisquare == other.chisquare
        &&& self.chisquare_excess == other.chisquare_excess
        &&& self.mean == other.mean
        &&& self.pi_estimate == other.pi_estimate
        &&& self.serial_correlation == other.serial_correlation
        &&& match (self.byte_frequencies, other.byte_frequencies) {
            (Some(a), Some(b)) => a@ == b@,
            (None, None) => true,
            _ => false,
        }
        &&& match (self.bit_frequencies, other.bit_frequencies) {
            (Some(a), Some(b)) => a@ == b@,
            (None, None) => true,
            _ => false,
        }
    }
}

/// The analysis is a function of the buffer and the mode: two results for one
/// buffer in one mode hold the same values, word for word.
pub proof fn lemma_analysis_repeats(s: Seq<u8>, bit_mode: bool, first: EntStats, second: EntStats)
    requires
        first.well_formed(),
        first@ == analysis_of(s, bit_mode),
        second.well_formed(),
        second@ == analysis_of(s, bit_mode),
    ensures
        first.same_as(second),
{
    assert(first.entropy_terms@ =~= second.entropy_terms@) by {
        assert(first.entropy_terms.deep_view().len() == second.entropy_terms.deep_view().len());
        assert forall|i: int| 0 <= i < first.entropy_terms@.len() implies first.entropy_terms@[i]
            == second.entropy_terms@[i] by {
            assert(first.entropy_terms.deep_view()[i] == second.entropy_terms.deep_view()[i]);
            lemma_ratio_is_unique(first.entropy_terms@[i], second.entropy_terms@[i]);
        }
    }
    lemma_ratio_is_unique(first.chisquare, second.chisquare);
    lemma_ratio_is_unique(first.mean, second.mean);
    lemma_ratio_is_unique(first.pi_estimate, second.pi_estimate);
    lemma_coefficient_is_unique(first.serial_correlation, second.serial_correlation);
    match (first.chisquare_excess, second.chisquare_excess) {
        (Some(a), Some(b)) => {
            lemma_ratio_is_unique(a, b);
        },
        _ => {},
    }
    match (first.byte_frequencies, second.byte_frequencies) {
        (Some(a), Some(b)) => {
            assert(a@ =~= b@) by {
                assert(byte_rows(a@).len() == byte_rows(b@).len());
                assert forall|i: int| 0 <= i < a@.len() implies a@[i] == b@[i] by {
                    assert(byte_rows(a@)[i] == byte_rows(b@)[i]);
                    lemma_ratio_is_unique(a@[i].2, b@[i].2);
                }
            }
        },
        _ => {},
    }
    match (first.bit_frequencies, second.bit_frequencies) {
        (Some(a), Some(b)) => {
            assert(a@ =~= b@) by {
                assert(bit_rows(a@).len() == bit_rows(b@).len());
                assert forall|i: int| 0 <= i < a@.len() implies a@[i] == b@[i] by {
                    assert(bit_rows(a@)[i] == bit_rows(b@)[i]);
                    lemma_ratio_is_unique(a@[i].1, b@[i].1);
                }
            }
        },
        _ => {},
    }
}

/// The mean, the estimate of pi and the serial correlation are those of the
/// bytes, whatever the mode.
pub proof fn lemma_byte_statistics_ignore_the_mode(s: Seq<u8>)
    ensures
        analysis_of(s, true).mean == analysis_of(s, false).mean,
        analysis_of(s, true).pi_estimate == analysis_of(s, false).pi_estimate,
        analysis_of(s, true).serial_correlation == analysis_of(s, false).serial_correlation,
{
}

/// What the analysis of an empty buffer holds: no entropy terms, a statistic
/// and a mean of 0 / 0, no excess, an estimate of pi of 0 / 1 and no serial
/// correlation.
pub proof fn lemma_analysis_of_empty_buffer(s: Seq<u8>, bit_mode: bool)
    requires
        s.len() == 0,
    ensures
        analysis_of(s, bit_mode).entropy_terms == Seq::<Fraction>::empty(),
        analysis_of(s, bit_mode).chisquare == (Fraction { num: 0, den: 0 }),
        analysis_of(s, bit_mode).chisquare_excess is None,
        analysis_of(s, bit_mode).mean == (Fraction { num: 0, den: 0 }),
        analysis_of(s, bit_mode).pi_estimate == (Fraction { num: 0, den: 1 }),
        analysis_of(s, bit_mode).serial_correlation == Correlation::Undefined,
{
    lemma_empty_buffer_has_no_terms(s, bit_mode);
    lemma_chisquare_of_empty_buffer(s, bit_mode);
}

/// Exactly one of the two frequency tables is filled, the one of the mode,
/// and the table of byte mode has 256 rows whatever the buffer holds.
pub proof fn lemma_one_table(s: Seq<u8>, bit_mode: bool)
    ensures
        analysis_of(s, bit_mode).byte_frequencies is Some <==> !bit_mode,
        analysis_of(s, bit_mode).bit_frequencies is Some <==> bit_mode,
        !bit_mode ==> analysis_of(s, bit_mode).byte_frequencies->0.len() == 256,
        bit_mode ==> analysis_of(s, bit_mode).bit_frequencies->0.len() == 2,
{
}

} // verus!
