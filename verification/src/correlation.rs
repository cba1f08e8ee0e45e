//! The serial correlation coefficient: the correlation of each byte with the
//! byte before it.

use crate::sums::{
    dot, is_constant, lemma_covariance_bounded, lemma_sums_bounded, lemma_variance_not_negative,
    lemma_variance_zero_iff_constant, scaled_covariance, sum_of,
};
use crate::wide::{lemma_sign_is_unique, lemma_words_are_unique, I256, U256};
use vstd::prelude::*;

verus! {

/// The serial correlation coefficient of a buffer.
pub enum Correlation {
    /// The coefficient does not exist: the buffer has fewer than two bytes, or
    /// one of the two variances is zero.
    Undefined,
    /// The coefficient is `covariance / sqrt(variance_x * variance_y)`, with
    /// both variances above zero. All three are scaled by the square of the
    /// number of pairs, which leaves the quotient as it is.
    Defined { covariance: int, variance_x: int, variance_y: int },
}

/// The serial correlation coefficient of a buffer as the analysis hands it
/// out: `Undefined`, or the three integers of `Correlation::Defined`.
#[derive(Clone, Copy, Debug, PartialEq, Eq, Structural)]
pub enum SerialCorrelation {
    /// The coefficient does not exist.
    Undefined,
    /// The coefficient is `covariance / sqrt(variance_x * variance_y)`.
    Defined { covariance: I256, variance_x: U256, variance_y: U256 },
}

impl View for SerialCorrelation {
    type V = Correlation;

    open spec fn view(&self) -> Correlation {
        match self {
            SerialCorrelation::Undefined => Correlation::Undefined,
            SerialCorrelation::Defined { covariance, variance_x, variance_y } => {
                Correlation::Defined {
                    covariance: covariance@,
                    variance_x: variance_x@ as int,
                    variance_y: variance_y@ as int,
                }
            },
        }
    }
}

impl SerialCorrelation {
    /// The numerator is written in its canonical way.
    pub open spec fn is_canonical(self) -> bool {
        match self {
            SerialCorrelation::Undefined => true,
            SerialCorrelation::Defined { covariance, .. } => covariance.is_canonical(),
        }
    }
}

/// A coefficient is written in one canonical way only.
pub proof fn lemma_coefficient_is_unique(a: SerialCorrelation, b: SerialCorrelation)
    requires
        a@ == b@,
        a.is_canonical(),
        b.is_canonical(),
    ensures
        a == b,
{
    match (a, b) {
        (
            SerialCorrelation::Defined { covariance: ca, variance_x: xa, variance_y: ya },
            SerialCorrelation::Defined { covariance: cb, variance_x: xb, variance_y: yb },
        ) => {
            lemma_sign_is_unique(ca, cb);
            lemma_words_are_unique(xa, xb);
            lemma_words_are_unique(ya, yb);
        },
        _ => {},
    }
}

/// The number of pairs of neighbours in `s`.
pub open spec fn pair_count(s: Seq<u8>) -> nat {
    if s.len() == 0 {
        0
    } else {
        (s.len() - 1) as nat
    }
}

/// The first members of the pairs of neighbours: every byte but the last.
pub open spec fn predecessors(s: Seq<u8>) -> Seq<int> {
    Seq::new(pair_count(s), |i: int| s[i] as int)
}

/// The second members of the pairs of neighbours: every byte but the first.
pub open spec fn successors(s: Seq<u8>) -> Seq<int> {
    Seq::new(pair_count(s), |i: int| s[i + 1] as int)
}

/// The numerator of the coefficient of `s`.
pub open spec fn covariance(s: Seq<u8>) -> int {
    scaled_covariance(predecessors(s), successors(s))
}

/// The scaled variance of the first members of the pairs of `s`.
pub open spec fn variance_x(s: Seq<u8>) -> int {
    scaled_covariance(predecessors(s), predecessors(s))
}

/// The scaled variance of the second members of the pairs of `s`.
pub open spec fn variance_y(s: Seq<u8>) -> int {
    scaled_covariance(successors(s), successors(s))
}

/// The serial correlation of `s`: the correlation coefficient of each byte
/// with the byte before it. Its denominator is the square root of the product
/// of the two variances, which is zero exactly when one of them is.
pub open spec fn serial_correlation_of(s: Seq<u8>) -> Correlation {
    if s.len() < 2 || variance_x(s) == 0 || variance_y(s) == 0 {
        Correlation::Undefined
    } else {
        Correlation::Defined {
            covariance: covariance(s),
            variance_x: variance_x(s),
            variance_y: variance_y(s),
        }
    }
}

/// The coefficient is undefined exactly for a buffer of fewer than two bytes,
/// one whose bytes but the last are all the same, or one whose bytes but the
/// first are all the same.
pub proof fn lemma_undefined_iff_degenerate(s: Seq<u8>)
    ensures
        serial_correlation_of(s) == Correlation::Undefined <==> s.len() < 2 || is_constant(
            predecessors(s),
        ) || is_constant(successors(s)),
{
    lemma_variance_zero_iff_constant(predecessors(s));
    lemma_variance_zero_iff_constant(successors(s));
}

/// A buffer that repeats one byte has no serial correlation.
pub proof fn lemma_constant_buffer_is_undefined(s: Seq<u8>)
    requires
        forall|i: int| 0 <= i < s.len() ==> #[trigger] s[i] == s[0],
    ensures
        serial_correlation_of(s) == Correlation::Undefined,
{
    assert(is_constant(predecessors(s)));
    lemma_undefined_iff_degenerate(s);
}

/// The coefficient lies between -1 and 1: the square of its numerator is no
/// larger than the square of its denominator.
pub proof fn lemma_coefficient_within_unit(s: Seq<u8>)
    ensures
        variance_x(s) >= 0,
        variance_y(s) >= 0,
        covariance(s) * covariance(s) <= variance_x(s) * variance_y(s),
{
    lemma_variance_not_negative(predecessors(s));
    lemma_variance_not_negative(successors(s));
    lemma_covariance_bounded(predecessors(s), successors(s));
}

/// The serial correlation coefficient of the buffer: the correlation of each
/// byte with the byte before it, over the `n = len - 1` pairs of neighbours.
///
/// With `x` the first and `y` the second member of a pair, the numerator is
/// `n * sum(x * y) - sum(x) * sum(y)`, and the denominator is the square root
/// of `(n * sum(x^2) - sum(x)^2) * (n * sum(y^2) - sum(y)^2)`. The three
/// integers are returned as they are. Where the denominator is zero, or the
/// buffer has fewer than two bytes, the result is `Undefined`.
pub fn serial_correlation(data: &[u8]) -> (r: SerialCorrelation)
    ensures
        r@ == serial_correlation_of(data@),
        r.is_canonical(),
{
    if data.len() < 2 {
        return SerialCorrelation::Undefined;
    }
    let ghost xs = predecessors(data@);
    let ghost ys = successors(data@);
    let mut sum_x: u128 = 0;
    let mut sum_y: u128 = 0;
    let mut sum_xy: u128 = 0;
    let mut sum_x2: u128 = 0;
    let mut sum_y2: u128 = 0;
    let mut i: usize = 1;
    while i < data.len()
        invariant
            1 <= i <= data.len(),
            xs == predecessors(data@),
            ys == successors(data@),
            sum_x == sum_of(xs.take(i - 1)),
            sum_y == sum_of(ys.take(i - 1)),
            sum_xy == dot(xs.take(i - 1), ys.take(i - 1)),
            sum_x2 == dot(xs.take(i - 1), xs.take(i - 1)),
            sum_y2 == dot(ys.take(i - 1), ys.take(i - 1)),
        decreases data.len() - i,
    {
        let x = data[i - 1] as u128;
        let y = data[i] as u128;
        proof {
            assert(xs.take(i as int).drop_last() =~= xs.take(i - 1));
            assert(ys.take(i as int).drop_last() =~= ys.take(i - 1));
            lemma_sums_bounded(xs.take(i as int), ys.take(i as int));
            lemma_sums_bounded(xs.take(i as int), xs.take(i as int));
            lemma_sums_bounded(ys.take(i as int), ys.take(i as int));
            assert(x * y <= 65025 && x * x <= 65025 && y * y <= 65025) by (nonlinear_arith)
                requires
                    x <= 255,
                    y <= 255,
            ;
        }
        sum_x = sum_x + x;
        sum_y = sum_y + y;
        sum_xy = sum_xy + x * y;
        sum_x2 = sum_x2 + x * x;
        sum_y2 = sum_y2 + y * y;
        i += 1;
    }
    let n = (data.len() - 1) as u128;
    proof {
        assert(xs.take(n as int) =~= xs);
        assert(ys.take(n as int) =~= ys);
        lemma_variance_not_negative(xs);
        lemma_variance_not_negative(ys);
    }
    let square_x = U256::widening_mul(sum_x, sum_x);
    let square_y = U256::widening_mul(sum_y, sum_y);
    let variance_x = U256::widening_mul(n, sum_x2).checked_sub(&square_x).unwrap();
    let variance_y = U256::widening_mul(n, sum_y2).checked_sub(&square_y).unwrap();
    if variance_x.is_zero() || variance_y.is_zero() {
        SerialCorrelation::Undefined
    } else {
        let covariance = I256::difference(
            &U256::widening_mul(n, sum_xy),
            &U256::widening_mul(sum_x, sum_y),
        );
        SerialCorrelation::Defined { covariance, variance_x, variance_y }
    }
}

} // verus!
