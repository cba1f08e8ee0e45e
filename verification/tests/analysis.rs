use ent_rs::{EntStats, Ratio, SerialCorrelation, I256, U256};
use statrs::function::erf::erfc;
use std::f64::consts::SQRT_2;

const TWO_POW_128: f64 = 340282366920938463463374607431768211456.0;

fn wide(n: U256) -> f64 {
    n.hi as f64 * TWO_POW_128 + n.lo as f64
}

fn signed(n: I256) -> f64 {
    if n.negative {
        -wide(n.magnitude)
    } else {
        wide(n.magnitude)
    }
}

fn value(r: Ratio) -> f64 {
    wide(r.num) / r.den as f64
}

fn entropy(stats: &EntStats) -> f64 {
    let mut sum = 0.0;
    for term in &stats.entropy_terms {
        let p = value(*term);
        sum += -p * p.log2();
    }
    sum
}

fn compression_percent(stats: &EntStats) -> f64 {
    100.0 * (1.0 - entropy(stats) / stats.symbol_bits as f64)
}

fn p_value(stats: &EntStats) -> f64 {
    match stats.chisquare_excess {
        Some(excess) => {
            let z = value(excess).sqrt();
            1.0 - 0.5 * erfc(-z / SQRT_2)
        }
        None => f64::NAN,
    }
}

fn serial_correlation(stats: &EntStats) -> f64 {
    match stats.serial_correlation {
        SerialCorrelation::Undefined => -99999.0,
        SerialCorrelation::Defined {
            covariance,
            variance_x,
            variance_y,
        } => signed(covariance) / (wide(variance_x) * wide(variance_y)).sqrt(),
    }
}

fn cycling(len: usize) -> Vec<u8> {
    (0..=255).cycle().take(len).collect()
}

#[test]
fn test_entropy_on_uniform_data() {
    let data = vec![0xAA; 4096]; // Constant pattern
    let stats = EntStats::from_data(&data, false);
    assert!(entropy(&stats) < 1.0, "Expected low entropy for uniform data");
    assert!(compression_percent(&stats) > 85.0);
}

#[test]
fn test_entropy_on_random_data() {
    let data: Vec<u8> = (0..=255).cycle().take(4096).collect(); // Pseudo-random-like distribution
    let stats = EntStats::from_data(&data, false);
    assert!(
        entropy(&stats) > 7.5,
        "Expected high entropy for diverse data"
    );
    assert!(compression_percent(&stats) < 10.0);
}

#[test]
fn test_chisquare_and_pvalue_validity() {
    // 75% zeros, 25% uniform noise
    let mut data = vec![0u8; 3072];
    data.extend((0..=255).cycle().take(1024));
    let stats = EntStats::from_data(&data, false);
    assert!(
        value(stats.chisquare) > 0.0,
        "Chi-square should be > 0 for biased input"
    );
    assert!(
        (0.0..=1.0).contains(&p_value(&stats)),
        "p-value should be in [0, 1]"
    );
}

#[test]
fn test_mean_value_byte_mode() {
    let data = vec![0x00, 0xFF];
    let stats = EntStats::from_data(&data, false);
    assert!(
        (value(stats.mean) - 127.5).abs() < 1.0,
        "Mean should be close to 127.5"
    );
}

#[test]
fn test_pi_estimation_sanity() {
    let data: Vec<u8> = (0..=255).cycle().take(8192).collect(); // Somewhat randomized
    let stats = EntStats::from_data(&data, false);
    assert!(
        (2.5..=3.8).contains(&value(stats.pi_estimate)),
        "Pi estimate should be within realistic bounds"
    );
}

#[test]
fn test_serial_correlation_constant() {
    let data = vec![0x33; 2048];
    let stats = EntStats::from_data(&data, false);
    assert_eq!(
        serial_correlation(&stats),
        -99999.0,
        "All values are equal, correlation should be undefined"
    );
}

#[test]
fn test_bit_mode_entropy_and_frequencies() {
    let data = vec![0b10101010u8; 1024]; // Equal 1s and 0s
    let stats = EntStats::from_data(&data, true);
    assert!(
        (entropy(&stats) - 1.0).abs() < 0.01,
        "Expected full bit entropy"
    );
    assert!(stats.bit_frequencies.is_some());
    let freqs = stats.bit_frequencies.unwrap();
    assert!((value(freqs[0].1) - 0.5).abs() < 0.01);
    assert!((value(freqs[1].1) - 0.5).abs() < 0.01);
}

#[test]
fn test_byte_frequency_distribution_length() {
    let data: Vec<u8> = (0..=255).cycle().take(4096).collect();
    let stats = EntStats::from_data(&data, false);
    let freqs = stats.byte_frequencies.as_ref().unwrap();
    assert_eq!(freqs.len(), 256);
}

#[test]
fn fractions_add_up_to_one() {
    for bit_mode in [false, true] {
        let stats = EntStats::from_data(&cycling(1000), bit_mode);
        let sum: f64 = match (&stats.byte_frequencies, &stats.bit_frequencies) {
            (Some(rows), None) => rows.iter().map(|row| value(row.2)).sum(),
            (None, Some(rows)) => rows.iter().map(|row| value(row.1)).sum(),
            _ => panic!("exactly one table is filled"),
        };
        assert!((sum - 1.0).abs() < 1e-9);
    }
}

#[test]
fn entropy_lies_between_zero_and_the_symbol_bits() {
    let buffers: Vec<Vec<u8>> = vec![
        vec![0x00],
        vec![0xFF; 100],
        vec![0x0F, 0xF0, 0x55],
        cycling(300),
        cycling(4096),
    ];
    for data in &buffers {
        let bytes = entropy(&EntStats::from_data(data, false));
        assert!((0.0..=8.0 + 1e-12).contains(&bytes));
        let bits = entropy(&EntStats::from_data(data, true));
        assert!((0.0..=1.0 + 1e-12).contains(&bits));
    }
}

#[test]
fn entropy_of_a_full_cycle_is_eight_bits() {
    let stats = EntStats::from_data(&cycling(256), false);
    assert!((entropy(&stats) - 8.0).abs() < 1e-12);
    assert!(compression_percent(&stats).abs() < 1e-9);
}

#[test]
fn entropy_of_a_constant_buffer_is_zero() {
    for byte in [0x00u8, 0x33, 0xAA, 0xFF] {
        let stats = EntStats::from_data(&vec![byte; 512], false);
        assert_eq!(entropy(&stats), 0.0);
        assert_eq!(compression_percent(&stats), 100.0);
    }
}

#[test]
fn entropy_of_two_equal_halves_is_one_bit() {
    let stats = EntStats::from_data(&[1, 2, 1, 2], false);
    assert_eq!(entropy(&stats), 1.0);
    assert_eq!(compression_percent(&stats), 87.5);
}

#[test]
fn p_value_of_a_statistic_at_the_degrees_of_freedom_is_one_half() {
    // One byte: the statistic is 255, as many as the degrees of freedom.
    let stats = EntStats::from_data(&[0x42], false);
    assert_eq!(value(stats.chisquare), 255.0);
    assert!((p_value(&stats) - 0.5).abs() < 1e-12);
}

#[test]
fn p_value_is_the_upper_tail_of_the_normal_deviate() {
    // Bit mode, eight set bits: the statistic is 8, one degree of freedom,
    // and the deviate is the square root of 7.
    let stats = EntStats::from_data(&[0xFF], true);
    assert_eq!(value(stats.chisquare), 8.0);
    assert!((p_value(&stats) - 0.004075485796751).abs() < 1e-9);
    // Bit mode, 12 set bits of 16: the statistic is 4 and the deviate is the
    // square root of 3.
    let stats = EntStats::from_data(&[0xFF, 0x0F], true);
    assert_eq!(value(stats.chisquare), 4.0);
    assert!((p_value(&stats) - 0.041632258331775).abs() < 1e-9);
}

#[test]
fn p_value_does_not_exist_below_the_degrees_of_freedom() {
    let stats = EntStats::from_data(&cycling(512), false);
    assert_eq!(value(stats.chisquare), 0.0);
    assert!(p_value(&stats).is_nan());
}

#[test]
fn p_value_lies_in_the_unit_interval_when_it_exists() {
    let buffers: Vec<Vec<u8>> = vec![vec![7; 10], vec![0, 1, 2, 3], vec![0xFF; 3]];
    for data in &buffers {
        for bit_mode in [false, true] {
            let stats = EntStats::from_data(data, bit_mode);
            assert!(value(stats.chisquare) >= 0.0);
            if stats.chisquare_excess.is_some() {
                assert!((0.0..=1.0).contains(&p_value(&stats)));
            }
        }
    }
}

#[test]
fn empty_buffer_gives_the_special_values() {
    let stats = EntStats::from_data(&[], false);
    assert!(value(stats.mean).is_nan());
    assert!(value(stats.chisquare).is_nan());
    assert!(p_value(&stats).is_nan());
    assert_eq!(entropy(&stats), 0.0);
    assert_eq!(value(stats.pi_estimate), 0.0);
    assert_eq!(serial_correlation(&stats), -99999.0);
}

#[test]
fn serial_correlation_of_a_rising_run_is_one() {
    let stats = EntStats::from_data(&[10, 20, 30, 40, 50], false);
    assert!((serial_correlation(&stats) - 1.0).abs() < 1e-12);
}

#[test]
fn serial_correlation_of_an_alternating_run_is_minus_one() {
    let stats = EntStats::from_data(&[0, 255, 0, 255, 0, 255, 0], false);
    assert!((serial_correlation(&stats) + 1.0).abs() < 1e-12);
}

#[test]
fn serial_correlation_lies_between_minus_one_and_one() {
    let buffers: Vec<Vec<u8>> = vec![
        vec![3, 1, 4, 1, 5, 9, 2, 6, 5, 3, 5],
        cycling(1000),
        vec![0, 0, 0, 255, 255, 0, 17],
    ];
    for data in &buffers {
        let r = serial_correlation(&EntStats::from_data(data, false));
        assert!((-1.0..=1.0).contains(&r));
    }
}

#[test]
fn decimal_values_of_a_longer_buffer() {
    let mut data: Vec<u8> = (0..1000u32)
        .map(|i| ((i * i * 31 + 7 * i + 3) % 256) as u8)
        .collect();
    data.push(200);
    let stats = EntStats::from_data(&data, false);
    assert!((entropy(&stats) - 7.000076108933982).abs() < 1e-9);
    assert!((compression_percent(&stats) - 12.499048638325226).abs() < 1e-7);
    assert!((value(stats.chisquare) - 1008.3826173826174).abs() < 1e-9);
    assert!((value(stats.mean) - 128.21578421578423).abs() < 1e-9);
    assert!((value(stats.pi_estimate) - 2.891566265060241).abs() < 1e-12);
    assert!((serial_correlation(&stats) + 0.04156808885046765).abs() < 1e-12);
    assert!((0.0..=1.0).contains(&p_value(&stats)));
}
