//! The Monte Carlo estimate of pi.
//!
//! Each six bytes give a point in a square of side 2^24. The share of the
//! points inside the quarter circle of that radius estimates `pi / 4`.

use crate::ratio::{Fraction, Ratio};
use vstd::prelude::*;

verus! {

/// The number that the three bytes of `s` from `at` on spell, the first byte
/// being the most significant.
pub open spec fn coordinate(s: Seq<u8>, at: int) -> int {
    s[at] * 0x1_0000 + s[at + 1] * 0x100 + s[at + 2]
}

/// The point that chunk `c` of six bytes gives lies inside the quarter circle
/// of radius 2^24 around the origin.
pub open spec fn is_hit(s: Seq<u8>, c: int) -> bool {
    let x = coordinate(s, 6 * c);
    let y = coordinate(s, 6 * c + 3);
    x * x + y * y < 0x1_0000_0000_0000
}

/// How many of the first `chunks` chunks of `s` give a point inside the
/// quarter circle.
pub open spec fn hits(s: Seq<u8>, chunks: nat) -> nat
    decreases chunks,
{
    if chunks == 0 {
        0
    } else {
        hits(s, (chunks - 1) as nat) + if is_hit(s, chunks - 1) {
            1nat
        } else {
            0nat
        }
    }
}

/// The estimate of pi from `s`: four times the share of the whole chunks of
/// six bytes that give a point inside the quarter circle. Without a whole
/// chunk it is zero.
pub open spec fn pi_estimate_of(s: Seq<u8>) -> Fraction {
    let chunks = s.len() / 6;
    if chunks == 0 {
        Fraction { num: 0, den: 1 }
    } else {
        Fraction { num: 4 * hits(s, chunks), den: chunks }
    }
}

/// No more points lie inside the quarter circle than there are chunks.
pub proof fn lemma_hits_bounded(s: Seq<u8>, chunks: nat)
    ensures
        hits(s, chunks) <= chunks,
    decreases chunks,
{
    if chunks > 0 {
        lemma_hits_bounded(s, (chunks - 1) as nat);
    }
}

/// The estimate of pi is always a number, between 0 and 4, and it is 0 / 1
/// for a buffer of fewer than six bytes.
pub proof fn lemma_estimate_within_square(s: Seq<u8>)
    ensures
        pi_estimate_of(s).at_least(0),
        pi_estimate_of(s).at_most(4),
        s.len() < 6 ==> pi_estimate_of(s) == (Fraction { num: 0, den: 1 }),
{
    lemma_hits_bounded(s, s.len() / 6);
}

/// The hits among the first `chunks` chunks depend on the bytes of those
/// chunks only.
proof fn lemma_hits_of_equal_chunks(s: Seq<u8>, t: Seq<u8>, chunks: nat)
    requires
        6 * chunks <= s.len(),
        6 * chunks <= t.len(),
        forall|i: int| 0 <= i < 6 * chunks ==> s[i] == t[i],
    ensures
        hits(s, chunks) == hits(t, chunks),
    decreases chunks,
{
    if chunks > 0 {
        lemma_hits_of_equal_chunks(s, t, (chunks - 1) as nat);
    }
}

/// The bytes after the last whole chunk are dropped: the estimate is that of
/// the buffer without them.
pub proof fn lemma_trailing_bytes_are_dropped(s: Seq<u8>)
    ensures
        pi_estimate_of(s) == pi_estimate_of(s.take(6 * (s.len() as int / 6))),
{
    let chunks = s.len() / 6;
    lemma_hits_of_equal_chunks(s, s.take(6 * chunks as int), chunks);
}

/// Three bytes as one number of 24 bits, the first byte the most significant.
fn big_endian_24(high: u8, mid: u8, low: u8) -> (value: u64)
    ensures
        value == high * 0x1_0000 + mid * 0x100 + low,
        value < 0x100_0000,
{
    let value = ((high as u64) << 16) | ((mid as u64) << 8) | (low as u64);
    proof {
        assert((((high as u64) << 16) | ((mid as u64) << 8) | (low as u64)) == high * 0x1_0000 + mid
            * 0x100 + low) by (bit_vector);
    }
    value
}

/// The Monte Carlo estimate of pi from the buffer.
///
/// The buffer is cut into chunks of six bytes, and what is left over at the
/// end is dropped. The first three bytes of a chunk are the coordinate `x` and
/// the last three the coordinate `y` of a point, each with its first byte the
/// most significant. The point is a hit when `x^2 + y^2 < 2^48`. The result is
/// the exact fraction of four times the hits and the number of chunks; a
/// buffer of fewer than six bytes gives 0 / 1.
pub fn estimate_pi(data: &[u8]) -> (estimate: Ratio)
    ensures
        estimate@ == pi_estimate_of(data@),
{
    let chunks = data.len() / 6;
    let mut inside: u128 = 0;
    let mut c: usize = 0;
    while c < chunks
        invariant
            c <= chunks,
            chunks == data@.len() / 6,
            6 * chunks <= data.len(),
            inside == hits(data@, c as nat),
            inside <= c,
        decreases chunks - c,
    {
        let at = 6 * c;
        let x = big_endian_24(data[at], data[at + 1], data[at + 2]);
        let y = big_endian_24(data[at + 3], data[at + 4], data[at + 5]);
        proof {
            assert(x * x + y * y <= 0x2_0000_0000_0000) by (nonlinear_arith)
                requires
                    x < 0x100_0000,
                    y < 0x100_0000,
            ;
        }
        if x * x + y * y < 0x1_0000_0000_0000 {
            inside = inside + 1;
        }
        c += 1;
    }
    if chunks > 0 {
        Ratio::new(4 * inside, chunks as u128)
    } else {
        Ratio::new(0, 1)
    }
}

} // verus!
