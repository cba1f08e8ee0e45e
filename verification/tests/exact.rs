use ent_rs::chisquare::calculate_chisquare;
use ent_rs::correlation::serial_correlation;
use ent_rs::entropy::{entropy_terms, symbol_bits};
use ent_rs::frequency::{bit_counts, bit_occurrences, byte_counts, byte_occurrences};
use ent_rs::mean::calculate_mean;
use ent_rs::pi::estimate_pi;
use ent_rs::{EntStats, Ratio, SerialCorrelation, I256, U256};

fn small(n: u128) -> U256 {
    U256 { hi: 0, lo: n }
}

fn ratio(num: u128, den: u128) -> Ratio {
    Ratio {
        num: small(num),
        den,
    }
}

fn defined(covariance: i128, variance_x: u128, variance_y: u128) -> SerialCorrelation {
    SerialCorrelation::Defined {
        covariance: I256 {
            negative: covariance < 0,
            magnitude: small(covariance.unsigned_abs()),
        },
        variance_x: small(variance_x),
        variance_y: small(variance_y),
    }
}

#[test]
fn byte_counts_count_each_value() {
    let counts = byte_counts(&[5, 5, 7, 0, 255, 5]);
    assert_eq!(counts[0], 1);
    assert_eq!(counts[5], 3);
    assert_eq!(counts[7], 1);
    assert_eq!(counts[255], 1);
    assert_eq!(counts.iter().sum::<usize>(), 6);
    assert_eq!(counts.iter().filter(|&&c| c == 0).count(), 252);
}

#[test]
fn bit_counts_count_clear_and_set_bits() {
    assert_eq!(bit_counts(&[]), [0, 0]);
    assert_eq!(bit_counts(&[0x00]), [8, 0]);
    assert_eq!(bit_counts(&[0xFF]), [0, 8]);
    assert_eq!(bit_counts(&[0x01, 0x80, 0xF0]), [18, 6]);
}

#[test]
fn byte_table_has_a_row_for_every_value() {
    let table = byte_occurrences(&[9, 9, 1]);
    assert_eq!(table.len(), 256);
    for (v, row) in table.iter().enumerate() {
        assert_eq!(row.0 as usize, v);
        assert_eq!(row.2.num, small(row.1 as u128));
        assert_eq!(row.2.den, 3);
    }
    assert_eq!(table[9], (9, 2, ratio(2, 3)));
    assert_eq!(table[1], (1, 1, ratio(1, 3)));
    assert_eq!(table[0], (0, 0, ratio(0, 3)));
}

#[test]
fn byte_table_of_an_empty_buffer_has_256_rows_without_a_value() {
    let table = byte_occurrences(&[]);
    assert_eq!(table.len(), 256);
    for row in &table {
        assert_eq!(row.1, 0);
        assert_eq!(row.2, ratio(0, 0));
    }
}

#[test]
fn bit_table_counts_eight_bits_for_each_byte() {
    let table = bit_occurrences(&[0b1010_1010, 0b0000_0001]);
    assert_eq!(table[0], (11, ratio(11, 16)));
    assert_eq!(table[1], (5, ratio(5, 16)));
}

#[test]
fn counts_add_up_to_the_number_of_symbols() {
    let data: Vec<u8> = (0..1000u32).map(|i| (i * 7 % 251) as u8).collect();
    let bytes: usize = byte_occurrences(&data).iter().map(|row| row.1).sum();
    assert_eq!(bytes, 1000);
    let bits = bit_occurrences(&data);
    assert_eq!(bits[0].0 + bits[1].0, 8000);
}

#[test]
fn entropy_terms_are_the_shares_of_the_symbols_that_occur() {
    assert_eq!(
        entropy_terms(&[0, 0, 1], false),
        vec![ratio(2, 3), ratio(1, 3)]
    );
    assert_eq!(
        entropy_terms(&[200, 3, 200, 3, 3], false),
        vec![ratio(3, 5), ratio(2, 5)]
    );
    assert_eq!(
        entropy_terms(&[0x0F], true),
        vec![ratio(4, 8), ratio(4, 8)]
    );
    assert_eq!(entropy_terms(&[0xFF, 0xFF], true), vec![ratio(16, 16)]);
    assert_eq!(entropy_terms(&[0x00], true), vec![ratio(8, 8)]);
}

#[test]
fn entropy_terms_of_an_empty_buffer_are_none() {
    assert_eq!(entropy_terms(&[], false), vec![]);
    assert_eq!(entropy_terms(&[], true), vec![]);
}

#[test]
fn symbol_bits_is_the_logarithm_of_the_alphabet_size() {
    assert_eq!(symbol_bits(false), 8);
    assert_eq!(symbol_bits(true), 1);
}

#[test]
fn chisquare_of_one_byte() {
    // 255^2 for the byte that occurs and 1 for each of the 255 others, over 256.
    let (statistic, excess) = calculate_chisquare(&[0x42], false);
    assert_eq!(statistic, ratio(65280, 256));
    assert_eq!(excess, Some(ratio(0, 256)));
}

#[test]
fn chisquare_of_two_different_bytes() {
    // Two symbols with 256 * 1 - 2, 254 symbols with 0 - 2, over 256 * 2.
    let (statistic, excess) = calculate_chisquare(&[1, 2], false);
    assert_eq!(statistic, ratio(2 * 254 * 254 + 254 * 4, 512));
    assert_eq!(excess, None);
}

#[test]
fn chisquare_in_bit_mode() {
    let (statistic, excess) = calculate_chisquare(&[0xFF], true);
    assert_eq!(statistic, ratio(128, 16));
    assert_eq!(excess, Some(ratio(112, 16)));
    let (statistic, excess) = calculate_chisquare(&[0xAA], true);
    assert_eq!(statistic, ratio(0, 16));
    assert_eq!(excess, None);
    let (statistic, excess) = calculate_chisquare(&[0x01, 0x00], true);
    assert_eq!(statistic, ratio(2 * 14 * 14, 32));
    assert_eq!(excess, Some(ratio(2 * 14 * 14 - 32, 32)));
}

#[test]
fn chisquare_of_an_empty_buffer_is_no_number() {
    for bit_mode in [false, true] {
        let (statistic, excess) = calculate_chisquare(&[], bit_mode);
        assert_eq!(statistic, ratio(0, 0));
        assert_eq!(excess, None);
    }
}

#[test]
fn mean_is_the_sum_over_the_length() {
    assert_eq!(calculate_mean(&[0x00, 0xFF]), ratio(255, 2));
    assert_eq!(calculate_mean(&[1, 2, 3, 4]), ratio(10, 4));
    assert_eq!(calculate_mean(&[]), ratio(0, 0));
    assert_eq!(calculate_mean(&vec![255; 1000]), ratio(255_000, 1000));
}

#[test]
fn byte_statistics_do_not_depend_on_the_mode() {
    let data = [9, 8, 7, 200, 1, 0, 3, 3, 250, 17, 4, 99, 5];
    let bytes = EntStats::from_data(&data, false);
    let bits = EntStats::from_data(&data, true);
    assert_eq!(bytes.mean, bits.mean);
    assert_eq!(bytes.pi_estimate, bits.pi_estimate);
    assert_eq!(bytes.serial_correlation, bits.serial_correlation);
    assert_eq!(bytes.mean, ratio(606, 13));
    assert_eq!(bytes.pi_estimate, ratio(8, 2));
}

#[test]
fn constant_buffer_has_a_single_term_of_one() {
    for byte in [0x00u8, 0x33, 0xFF] {
        assert_eq!(entropy_terms(&vec![byte; 4096], false), vec![ratio(4096, 4096)]);
    }
}

#[test]
fn chisquare_of_a_buffer_that_meets_the_expectation_is_zero() {
    let data: Vec<u8> = (0..=255).cycle().take(512).collect();
    let (statistic, excess) = calculate_chisquare(&data, false);
    assert_eq!(statistic, ratio(0, 256 * 512));
    assert_eq!(excess, None);
}

#[test]
fn chisquare_is_the_sum_of_squared_deviations_over_the_expectation() {
    // 512 bytes, 2 expected of each value: 0 occurs 4 times, 1 never.
    let mut data: Vec<u8> = (0..=255).cycle().take(512).collect();
    data[1] = 0;
    data[257] = 0;
    let (statistic, _) = calculate_chisquare(&data, false);
    // ((4 - 2)^2 + (0 - 2)^2) / 2 = 4
    assert_eq!(statistic.num.hi, 0);
    assert_eq!(statistic.num.lo, 4 * statistic.den);
}

#[test]
fn pi_of_fewer_than_six_bytes_is_zero() {
    assert_eq!(estimate_pi(&[]), ratio(0, 1));
    assert_eq!(estimate_pi(&[0, 0, 0, 0, 0]), ratio(0, 1));
}

#[test]
fn pi_counts_the_points_inside_the_quarter_circle() {
    let mut data = vec![0u8; 6];
    data.extend([0xFF; 6]);
    data.extend([1, 2, 3]);
    assert_eq!(estimate_pi(&data), ratio(4, 2));
    assert_eq!(estimate_pi(&[0xFF; 12]), ratio(0, 2));
    assert_eq!(estimate_pi(&[0; 18]), ratio(12, 3));
}

#[test]
fn pi_drops_the_bytes_after_the_last_whole_chunk() {
    let data: Vec<u8> = (0..17u32).map(|i| (i * 37 % 256) as u8).collect();
    for tail in 12..=17 {
        assert_eq!(estimate_pi(&data[..tail]), estimate_pi(&data[..12]));
    }
}

#[test]
fn pi_reads_each_coordinate_with_its_first_byte_highest() {
    // x = 0xFFFFFF, y = 0x0000FF: x^2 + y^2 = 2^48 - 2^25 + 1 + 65025.
    assert_eq!(estimate_pi(&[0xFF, 0xFF, 0xFF, 0x00, 0x00, 0xFF]), ratio(4, 1));
    // x = 0xFFFFFF, y = 0xFF0000.
    assert_eq!(estimate_pi(&[0xFF, 0xFF, 0xFF, 0xFF, 0x00, 0x00]), ratio(0, 1));
    // x = 0x0000FF, y = 0xFFFFFF.
    assert_eq!(estimate_pi(&[0x00, 0x00, 0xFF, 0xFF, 0xFF, 0xFF]), ratio(4, 1));
}

#[test]
fn pi_hit_needs_a_distance_below_the_radius() {
    // x = 2^24 - 1, y = 5792: x^2 + y^2 = 2^48 - 2^25 + 1 + 33547264 < 2^48.
    assert_eq!(estimate_pi(&[0xFF, 0xFF, 0xFF, 0x00, 0x16, 0xA0]), ratio(4, 1));
    // x = 2^24 - 1, y = 5793: x^2 + y^2 = 2^48 - 2^25 + 1 + 33558849 >= 2^48.
    assert_eq!(estimate_pi(&[0xFF, 0xFF, 0xFF, 0x00, 0x16, 0xA1]), ratio(0, 1));
}

#[test]
fn serial_correlation_needs_two_bytes() {
    assert_eq!(serial_correlation(&[]), SerialCorrelation::Undefined);
    assert_eq!(serial_correlation(&[7]), SerialCorrelation::Undefined);
}

#[test]
fn serial_correlation_of_constant_neighbours_is_undefined() {
    assert_eq!(serial_correlation(&[7, 7]), SerialCorrelation::Undefined);
    assert_eq!(serial_correlation(&[1, 2]), SerialCorrelation::Undefined);
    assert_eq!(serial_correlation(&[1, 2, 2]), SerialCorrelation::Undefined);
    assert_eq!(serial_correlation(&[2, 2, 1]), SerialCorrelation::Undefined);
    assert_eq!(
        serial_correlation(&vec![0x33; 2048]),
        SerialCorrelation::Undefined
    );
}

#[test]
fn serial_correlation_is_three_exact_integers() {
    // Pairs (1, 2), (2, 3): n = 2, sums 3, 5, products 8, squares 5 and 13.
    assert_eq!(serial_correlation(&[1, 2, 3]), defined(1, 1, 1));
    // Pairs (1, 2), (2, 1): n = 2, sums 3, 3, products 4, squares 5 and 5.
    assert_eq!(serial_correlation(&[1, 2, 1]), defined(-1, 1, 1));
    // Pairs (0, 10), (10, 0), (0, 4): n = 3, sums 10, 14, products 0,
    // squares 100 and 116.
    assert_eq!(serial_correlation(&[0, 10, 0, 4]), defined(-140, 200, 152));
}

#[test]
fn exactly_one_table_is_filled() {
    let bytes = EntStats::from_data(&[1, 2, 3], false);
    assert!(bytes.byte_frequencies.is_some() && bytes.bit_frequencies.is_none());
    assert_eq!(bytes.symbol_bits, 8);
    let bits = EntStats::from_data(&[1, 2, 3], true);
    assert!(bits.byte_frequencies.is_none() && bits.bit_frequencies.is_some());
    assert_eq!(bits.symbol_bits, 1);
}

#[test]
fn analysis_puts_the_parts_together() {
    let data: Vec<u8> = (0..200u32).map(|i| (i * i % 256) as u8).collect();
    for bit_mode in [false, true] {
        let stats = EntStats::from_data(&data, bit_mode);
        let (chisquare, excess) = calculate_chisquare(&data, bit_mode);
        assert_eq!(stats.entropy_terms, entropy_terms(&data, bit_mode));
        assert_eq!(stats.symbol_bits, symbol_bits(bit_mode));
        assert_eq!(stats.chisquare, chisquare);
        assert_eq!(stats.chisquare_excess, excess);
        assert_eq!(stats.mean, calculate_mean(&data));
        assert_eq!(stats.pi_estimate, estimate_pi(&data));
        assert_eq!(stats.serial_correlation, serial_correlation(&data));
        if bit_mode {
            assert_eq!(stats.bit_frequencies, Some(bit_occurrences(&data)));
        } else {
            assert_eq!(stats.byte_frequencies, Some(byte_occurrences(&data)));
        }
    }
}

#[test]
fn analysis_of_one_buffer_is_always_the_same() {
    let data: Vec<u8> = (0..5000u32).map(|i| (i * 31 % 253) as u8).collect();
    for bit_mode in [false, true] {
        let first = EntStats::from_data(&data, bit_mode);
        let second = EntStats::from_data(&data, bit_mode);
        assert_eq!(first, second);
        assert_eq!(first.clone(), first);
    }
}

#[test]
fn analysis_of_a_longer_buffer_in_figures() {
    let mut data: Vec<u8> = (0..1000u32)
        .map(|i| ((i * i * 31 + 7 * i + 3) % 256) as u8)
        .collect();
    data.push(200);

    let bytes = EntStats::from_data(&data, false);
    assert_eq!(bytes.chisquare, ratio(258404096, 256256));
    assert_eq!(bytes.chisquare_excess, Some(ratio(193058816, 256256)));
    assert_eq!(bytes.mean, ratio(128344, 1001));
    assert_eq!(bytes.pi_estimate, ratio(480, 166));
    assert_eq!(bytes.serial_correlation, defined(-226194104, 5446803264, 5436266719));
    assert_eq!(bytes.entropy_terms.len(), 129);
    assert_eq!(bytes.entropy_terms[0], ratio(8, 1001));
    assert_eq!(bytes.entropy_terms[128], ratio(8, 1001));
    let table = bytes.byte_frequencies.unwrap();
    assert_eq!(table[1], (1, 8, ratio(8, 1001)));
    assert_eq!(table[200], (200, 1, ratio(1, 1001)));
    assert_eq!(table[255], (255, 8, ratio(8, 1001)));

    let bits = EntStats::from_data(&data, true);
    assert_eq!(bits.chisquare, ratio(2024072, 16016));
    assert_eq!(bits.chisquare_excess, Some(ratio(2008056, 16016)));
    assert_eq!(
        bits.bit_frequencies,
        Some([(3501, ratio(3501, 8008)), (4507, ratio(4507, 8008))])
    );
    assert_eq!(bits.entropy_terms, vec![ratio(3501, 8008), ratio(4507, 8008)]);
}
