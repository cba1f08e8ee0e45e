//! The frequency counter: how often each symbol occurs, and its share.
//!
//! In byte mode the symbols are the 256 byte values. In bit mode they are the
//! two bit values, and each byte gives eight symbols.

use crate::ratio::{Fraction, Ratio};
use vstd::prelude::*;

verus! {

/// How many positions of `s` hold the byte `v`.
pub open spec fn occurrences(s: Seq<u8>, v: u8) -> nat
    decreases s.len(),
{
    if s.len() == 0 {
        0
    } else {
        occurrences(s.drop_last(), v) + if s.last() == v {
            1nat
        } else {
            0nat
        }
    }
}

/// Bit `i` of `b`, bit 0 being the least significant.
pub open spec fn bit(b: u8, i: u8) -> bool {
    (b >> i) & 1 == 1
}

/// How many of the `width` least significant bits of `b` have the given
/// value.
pub open spec fn bits_of_value(b: u8, width: u8, value: bool) -> nat
    decreases width,
{
    if width == 0 {
        0
    } else {
        bits_of_value(b, (width - 1) as u8, value) + if bit(b, (width - 1) as u8) == value {
            1nat
        } else {
            0nat
        }
    }
}

/// How many bits of the bytes of `s` have the given value.
pub open spec fn bit_occurrences_of(s: Seq<u8>, value: bool) -> nat
    decreases s.len(),
{
    if s.len() == 0 {
        0
    } else {
        bit_occurrences_of(s.drop_last(), value) + bits_of_value(s.last(), 8, value)
    }
}

/// The number of symbols of the alphabet: the two bit values, or the 256 byte
/// values.
pub open spec fn alphabet_size(bit_mode: bool) -> nat {
    if bit_mode {
        2
    } else {
        256
    }
}

/// The number of symbols that a buffer holds: eight for each byte in bit mode,
/// one for each byte otherwise.
pub open spec fn symbol_total(s: Seq<u8>, bit_mode: bool) -> nat {
    if bit_mode {
        8 * s.len()
    } else {
        s.len()
    }
}

/// How often symbol `v` occurs in `s`. Outside the alphabet it is zero.
pub open spec fn symbol_count(s: Seq<u8>, bit_mode: bool, v: int) -> nat {
    if bit_mode {
        if v == 0 {
            bit_occurrences_of(s, false)
        } else if v == 1 {
            bit_occurrences_of(s, true)
        } else {
            0
        }
    } else {
        if 0 <= v < 256 {
            occurrences(s, v as u8)
        } else {
            0
        }
    }
}

/// The counts of the symbols below `k`, added up.
pub open spec fn count_sum(s: Seq<u8>, bit_mode: bool, k: nat) -> nat
    decreases k,
{
    if k == 0 {
        0
    } else {
        count_sum(s, bit_mode, (k - 1) as nat) + symbol_count(s, bit_mode, k - 1)
    }
}

/// The fraction of the symbols of `s` that are symbol `v`.
pub open spec fn symbol_fraction(s: Seq<u8>, bit_mode: bool, v: int) -> Fraction {
    Fraction { num: symbol_count(s, bit_mode, v), den: symbol_total(s, bit_mode) }
}

/// The fractions of all symbols of the alphabet, in rising order of the
/// symbol.
pub open spec fn probabilities(s: Seq<u8>, bit_mode: bool) -> Seq<Fraction> {
    Seq::new(alphabet_size(bit_mode), |v: int| symbol_fraction(s, bit_mode, v))
}

/// The numerators of a sequence of fractions, added up.
pub open spec fn numerator_sum(fractions: Seq<Fraction>) -> nat
    decreases fractions.len(),
{
    if fractions.len() == 0 {
        0
    } else {
        numerator_sum(fractions.drop_last()) + fractions.last().num
    }
}

/// The row of byte value `v` in the frequency table of `s`: the value, its
/// count and its fraction.
pub open spec fn byte_row(s: Seq<u8>, v: int) -> (u8, nat, Fraction) {
    (v as u8, symbol_count(s, false, v), symbol_fraction(s, false, v))
}

/// The frequency table of `s` in byte mode: one row for each byte value, in
/// rising order, also for the values that do not occur.
pub open spec fn byte_table(s: Seq<u8>) -> Seq<(u8, nat, Fraction)> {
    Seq::new(256, |v: int| byte_row(s, v))
}

/// The row of bit value `v` in the frequency table of `s`: its count and its
/// fraction.
pub open spec fn bit_row(s: Seq<u8>, v: int) -> (nat, Fraction) {
    (symbol_count(s, true, v), symbol_fraction(s, true, v))
}

/// The frequency table of `s` in bit mode: the row of bit 0, then that of
/// bit 1.
pub open spec fn bit_table(s: Seq<u8>) -> Seq<(nat, Fraction)> {
    Seq::new(2, |v: int| bit_row(s, v))
}

/// What the rows of a byte frequency table hold.
pub open spec fn byte_rows(table: Seq<(u8, usize, Ratio)>) -> Seq<(u8, nat, Fraction)> {
    Seq::new(table.len(), |i: int| (table[i].0, table[i].1 as nat, table[i].2@))
}

/// What the rows of a bit frequency table hold.
pub open spec fn bit_rows(table: Seq<(u128, Ratio)>) -> Seq<(nat, Fraction)> {
    Seq::new(table.len(), |i: int| (table[i].0 as nat, table[i].1@))
}

/// No byte occurs more often than the sequence is long.
pub proof fn lemma_occurrences_bounded(s: Seq<u8>, v: u8)
    ensures
        occurrences(s, v) <= s.len(),
    decreases s.len(),
{
    if s.len() > 0 {
        lemma_occurrences_bounded(s.drop_last(), v);
    }
}

/// Each of the `width` least significant bits of a byte is either set or
/// clear.
pub proof fn lemma_bits_of_byte_partition(b: u8, width: u8)
    ensures
        bits_of_value(b, width, false) + bits_of_value(b, width, true) == width,
    decreases width,
{
    if width > 0 {
        lemma_bits_of_byte_partition(b, (width - 1) as u8);
    }
}

/// The clear and the set bits of a buffer are eight for each byte.
pub proof fn lemma_bits_partition(s: Seq<u8>)
    ensures
        bit_occurrences_of(s, false) + bit_occurrences_of(s, true) == 8 * s.len(),
    decreases s.len(),
{
    if s.len() > 0 {
        lemma_bits_partition(s.drop_last());
        lemma_bits_of_byte_partition(s.last(), 8);
    }
}

/// One more byte adds one to the counts of the symbols below `k` exactly when
/// that byte is one of them.
proof fn lemma_count_sum_step(s: Seq<u8>, k: nat)
    requires
        s.len() > 0,
        k <= 256,
    ensures
        count_sum(s, false, k) == count_sum(s.drop_last(), false, k) + if s.last() < k {
            1nat
        } else {
            0nat
        },
    decreases k,
{
    if k > 0 {
        lemma_count_sum_step(s, (k - 1) as nat);
    }
}

/// The counts of all symbols add up to the number of symbols in the buffer:
/// its length in byte mode, eight times its length in bit mode. So the
/// fractions of a buffer that is not empty add up to one.
pub proof fn lemma_counts_sum_to_total(s: Seq<u8>, bit_mode: bool)
    ensures
        count_sum(s, bit_mode, alphabet_size(bit_mode)) == symbol_total(s, bit_mode),
    decreases s.len(),
{
    if bit_mode {
        reveal_with_fuel(count_sum, 3);
        lemma_bits_partition(s);
    } else if s.len() == 0 {
        lemma_count_sum_empty(s, 256);
    } else {
        lemma_counts_sum_to_total(s.drop_last(), false);
        lemma_count_sum_step(s, 256);
    }
}

/// In an empty buffer no byte value occurs.
proof fn lemma_count_sum_empty(s: Seq<u8>, k: nat)
    requires
        s.len() == 0,
    ensures
        count_sum(s, false, k) == 0,
    decreases k,
{
    if k > 0 {
        lemma_count_sum_empty(s, (k - 1) as nat);
    }
}

/// The counts of the symbols below `k` add up to no more than the counts of
/// all of them.
pub proof fn lemma_count_sum_bounded(s: Seq<u8>, bit_mode: bool, k: nat)
    requires
        k <= alphabet_size(bit_mode),
    ensures
        count_sum(s, bit_mode, k) <= symbol_total(s, bit_mode),
        k > 0 ==> symbol_count(s, bit_mode, k - 1) <= symbol_total(s, bit_mode),
{
    lemma_counts_sum_to_total(s, bit_mode);
    lemma_count_sum_monotone(s, bit_mode, k, alphabet_size(bit_mode));
    if k > 0 {
        assert(count_sum(s, bit_mode, k) == count_sum(s, bit_mode, (k - 1) as nat) + symbol_count(
            s,
            bit_mode,
            k - 1,
        ));
    }
}

/// The more symbols are counted, the larger the sum of their counts.
proof fn lemma_count_sum_monotone(s: Seq<u8>, bit_mode: bool, k: nat, m: nat)
    requires
        k <= m,
    ensures
        count_sum(s, bit_mode, k) <= count_sum(s, bit_mode, m),
    decreases m - k,
{
    if k < m {
        lemma_count_sum_monotone(s, bit_mode, k + 1, m);
    }
}

/// The numerators of the fractions of the symbols below `k` are their counts.
proof fn lemma_numerator_sum_is_count_sum(s: Seq<u8>, bit_mode: bool, k: nat)
    requires
        k <= alphabet_size(bit_mode),
    ensures
        numerator_sum(probabilities(s, bit_mode).take(k as int)) == count_sum(s, bit_mode, k),
    decreases k,
{
    if k > 0 {
        let all = probabilities(s, bit_mode);
        lemma_numerator_sum_is_count_sum(s, bit_mode, (k - 1) as nat);
        assert(all.take(k as int).drop_last() =~= all.take(k - 1));
    }
}

/// The frequency table of either mode has one row for each symbol of the
/// alphabet, in rising order, with the count of the symbol and its fraction.
pub proof fn lemma_tables_hold_every_symbol(s: Seq<u8>)
    ensures
        byte_table(s).len() == 256,
        forall|v: int|
            0 <= v < 256 ==> #[trigger] byte_table(s)[v] == (
                v as u8,
                occurrences(s, v as u8),
                probabilities(s, false)[v],
            ),
        bit_table(s).len() == 2,
        bit_table(s)[0] == (bit_occurrences_of(s, false), probabilities(s, true)[0]),
        bit_table(s)[1] == (bit_occurrences_of(s, true), probabilities(s, true)[1]),
{
}

/// The fractions of the symbols of a buffer that is not empty add up to one:
/// all have the number of symbols in the buffer as their denominator, which is
/// not zero, and their numerators add up to that number.
pub proof fn lemma_fractions_sum_to_one(s: Seq<u8>, bit_mode: bool)
    requires
        s.len() > 0,
    ensures
        symbol_total(s, bit_mode) > 0,
        forall|v: int|
            0 <= v < alphabet_size(bit_mode) ==> (#[trigger] probabilities(s, bit_mode)[v]).den
                == symbol_total(s, bit_mode),
        numerator_sum(probabilities(s, bit_mode)) == symbol_total(s, bit_mode),
{
    let all = probabilities(s, bit_mode);
    lemma_numerator_sum_is_count_sum(s, bit_mode, alphabet_size(bit_mode));
    lemma_counts_sum_to_total(s, bit_mode);
    assert(all.take(alphabet_size(bit_mode) as int) =~= all);
}

/// Counts the occurrences of each of the 256 byte values in one pass over the
/// buffer.
pub fn byte_counts(data: &[u8]) -> (counts: [usize; 256])
    ensures
        forall|v: int| 0 <= v < 256 ==> #[trigger] counts[v] == symbol_count(data@, false, v),
{
    let mut counts = [0usize; 256];
    let mut i: usize = 0;
    while i < data.len()
        invariant
            i <= data.len(),
            forall|v: int|
                0 <= v < 256 ==> #[trigger] counts[v] == occurrences(
                    data@.take(i as int),
                    v as u8,
                ),
        decreases data.len() - i,
    {
        let b = data[i];
        proof {
            assert(data@.take(i + 1).drop_last() =~= data@.take(i as int));
            lemma_occurrences_bounded(data@.take(i as int), b);
        }
        counts[b as usize] = counts[b as usize] + 1;
        i += 1;
    }
    proof {
        assert(data@.take(data.len() as int) =~= data@);
    }
    counts
}

/// Counts the clear and the set bits of the buffer in one pass, each byte from
/// its least significant bit to its most significant.
pub fn bit_counts(data: &[u8]) -> (counts: [u128; 2])
    ensures
        counts[0] == symbol_count(data@, true, 0),
        counts[1] == symbol_count(data@, true, 1),
{
    let mut counts = [0u128; 2];
    let mut i: usize = 0;
    while i < data.len()
        invariant
            i <= data.len(),
            counts[0] == bit_occurrences_of(data@.take(i as int), false),
            counts[1] == bit_occurrences_of(data@.take(i as int), true),
            counts[0] + counts[1] == 8 * i,
        decreases data.len() - i,
    {
        let b = data[i];
        let ghost before = counts;
        let mut j: u8 = 0;
        while j < 8
            invariant
                j <= 8,
                i < data.len(),
                before[0] + before[1] == 8 * i,
                bits_of_value(b, j, false) + bits_of_value(b, j, true) == j,
                counts[0] == before[0] + bits_of_value(b, j, false),
                counts[1] == before[1] + bits_of_value(b, j, true),
            decreases 8 - j,
        {
            let symbol = ((b >> j) & 1) as usize;
            proof {
                assert(((b >> j) & 1) == 0 || ((b >> j) & 1) == 1) by (bit_vector);
            }
            counts[symbol] = counts[symbol] + 1;
            j += 1;
        }
        proof {
            assert(data@.take(i + 1).drop_last() =~= data@.take(i as int));
        }
        i += 1;
    }
    proof {
        assert(data@.take(data.len() as int) =~= data@);
    }
    counts
}

/// The frequency table in byte mode: for each byte value, in rising order, the
/// value, its count and its share of the buffer. The table has 256 rows
/// whatever the buffer holds.
pub fn byte_occurrences(data: &[u8]) -> (table: Vec<(u8, usize, Ratio)>)
    ensures
        table@.len() == 256,
        byte_rows(table@) == byte_table(data@),
{
    let counts = byte_counts(data);
    let total = data.len() as u128;
    let mut table: Vec<(u8, usize, Ratio)> = Vec::with_capacity(256);
    let mut v: usize = 0;
    while v < 256
        invariant
            v <= 256,
            total == data@.len(),
            table@.len() == v,
            forall|w: int| 0 <= w < 256 ==> #[trigger] counts[w] == symbol_count(data@, false, w),
            forall|w: int|
                0 <= w < v ==> (#[trigger] table@[w]).0 == w && table@[w].1 == counts[w]
                    && table@[w].2@ == symbol_fraction(data@, false, w),
        decreases 256 - v,
    {
        let count = counts[v];
        table.push((v as u8, count, Ratio::new(count as u128, total)));
        v += 1;
    }
    proof {
        assert(byte_rows(table@) =~= byte_table(data@));
    }
    table
}

/// The frequency table in bit mode: for bit 0 and for bit 1, its count and its
/// share of the bits of the buffer.
pub fn bit_occurrences(data: &[u8]) -> (table: [(u128, Ratio); 2])
    ensures
        bit_rows(table@) == bit_table(data@),
{
    let counts = bit_counts(data);
    let total = 8 * (data.len() as u128);
    let table = [
        (counts[0], Ratio::new(counts[0], total)),
        (counts[1], Ratio::new(counts[1], total)),
    ];
    proof {
        assert(bit_rows(table@) =~= bit_table(data@));
    }
    table
}

} // verus!
