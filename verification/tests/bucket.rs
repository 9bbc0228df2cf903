//! Bucket tables and nearest-rank quantiles.

use tracegrams::bucket::{
    bucketize, calibration_bounds, calibration_bucketize, default_bounds, default_bucketize,
    BUCKETS, CALIBRATION_BUCKETS,
};
use tracegrams::quantile::{
    estimate_quantile, finite_representative, nearest_rank, quantile_rank, relative_error,
    QuantileError, RankSelection, TerminalStatus,
};
use tracegrams::Ratio;

const EXPECTED_DEFAULT_BOUNDS: [u64; BUCKETS - 1] = [
    100, 135, 181, 244, 328, 442,
    595, 800, 1_077, 1_450, 1_951, 2_626,
    3_535, 4_758, 6_404, 8_620, 11_602, 15_615,
    21_017, 28_289, 38_075, 51_248, 68_978, 92_841,
    124_961, 168_192, 226_380, 304_699, 410_113, 551_995,
    742_964, 1_000_000, 1_345_960, 1_811_609, 2_438_354, 3_281_928,
    4_417_345, 5_945_571, 8_002_502, 10_771_051, 14_497_407, 19_512_934,
    26_263_635, 35_349_811, 47_579_443, 64_040_043, 86_195_357, 116_015_530,
    156_152_301, 210_174_801, 282_886_943, 380_754_602, 512_480_588, 689_778_538,
    928_414_545, 1_249_609_141, 1_681_924_325, 2_263_803_410, 3_046_989_571, 4_101_127_071,
    5_519_954_321, 7_429_639_508, 10_000_000_000,
];

const EXPECTED_CALIBRATION_BOUNDS: [u64; CALIBRATION_BUCKETS - 1] = [
    100, 108, 116, 125, 135, 145,
    156, 168, 181, 195, 210, 226,
    244, 263, 283, 305, 328, 353,
    381, 410, 442, 476, 513, 552,
    595, 641, 690, 743, 800, 862,
    928, 1_000, 1_077, 1_160, 1_250, 1_346,
    1_450, 1_562, 1_682, 1_811, 1_951, 2_101,
    2_263, 2_438, 2_626, 2_829, 3_047, 3_282,
    3_535, 3_808, 4_101, 4_417, 4_758, 5_125,
    5_520, 5_946, 6_404, 6_898, 7_430, 8_003,
    8_620, 9_285, 10_000, 10_772, 11_602, 12_496,
    13_460, 14_497, 15_615, 16_819, 18_116, 19_513,
    21_017, 22_638, 24_383, 26_264, 28_289, 30_470,
    32_819, 35_350, 38_075, 41_011, 44_173, 47_579,
    51_248, 55_200, 59_456, 64_040, 68_978, 74_296,
    80_025, 86_195, 92_841, 100_000, 107_710, 116_015,
    124_961, 134_596, 144_974, 156_152, 168_192, 181_161,
    195_129, 210_174, 226_380, 243_835, 262_636, 282_887,
    304_699, 328_193, 353_498, 380_755, 410_113, 441_735,
    475_794, 512_480, 551_995, 594_557, 640_400, 689_778,
    742_964, 800_250, 861_954, 928_415, 1_000_000, 1_077_105,
    1_160_155, 1_249_609, 1_345_960, 1_449_740, 1_561_523, 1_681_924,
    1_811_609, 1_951_293, 2_101_748, 2_263_803, 2_438_354, 2_626_363,
    2_828_869, 3_046_990, 3_281_928, 3_534_981, 3_807_546, 4_101_127,
    4_417_345, 4_757_945, 5_124_806, 5_519_955, 5_945_571, 6_404_004,
    6_897_785, 7_429_639, 8_002_502, 8_619_536, 9_284_145, 10_000_000,
    10_771_051, 11_601_553, 12_496_092, 13_459_604, 14_497_407, 15_615_230,
    16_819_243, 18_116_092, 19_512_934, 21_017_480, 22_638_034, 24_383_541,
    26_263_635, 28_288_694, 30_469_896, 32_819_279, 35_349_811, 38_075_460,
    41_011_271, 44_173_447, 47_579_443, 51_248_059, 55_199_543, 59_455_707,
    64_040_043, 68_977_854, 74_296_395, 80_025_023, 86_195_357, 92_841_455,
    100_000_000, 107_710_506, 116_015_530, 124_960_914, 134_596_032, 144_974_067,
    156_152_301, 168_192_433, 181_160_920, 195_129_342, 210_174_801, 226_380_341,
    243_835_410, 262_636_352, 282_886_943, 304_698_957, 328_192_787, 353_498_110,
    380_754_602, 410_112_707, 441_734_470, 475_794_432, 512_480_588, 551_995_432,
    594_557_071, 640_400_427, 689_778_538, 742_963_951, 800_250_228, 861_953_567,
    928_414_545, 1_000_000_000, 1_077_105_056, 1_160_155_302, 1_249_609_141, 1_345_960_324,
    1_449_740_670, 1_561_523_006, 1_681_924_325, 1_811_609_194, 1_951_293_423, 2_101_748_012,
    2_263_803_410, 2_438_354_099, 2_626_363_528, 2_828_869_435, 3_046_989_571, 3_281_927_873,
    3_534_981_105, 3_807_546_022, 4_101_127_071, 4_417_344_703, 4_757_944_314, 5_124_805_877,
    5_519_954_321, 5_945_570_708, 6_404_004_271, 6_897_785_380, 7_429_639_508, 8_002_502_278,
    8_619_535_665, 9_284_145_445, 10_000_000_000,
];

/// A small deterministic generator of test inputs.
struct Generator(u64);

impl Generator {
    fn next(&mut self) -> u64 {
        self.0 ^= self.0 << 13;
        self.0 ^= self.0 >> 7;
        self.0 ^= self.0 << 17;
        self.0
    }

    fn below(&mut self, end: u64) -> u64 {
        self.next() % end
    }
}

#[allow(clippy::cast_precision_loss)]
fn generated_quantile(generator: &mut Generator) -> f64 {
    match generator.below(12) {
        0..=7 => f64::from_bits(1 + generator.below(1.0_f64.to_bits())),
        8..=9 => {
            let divisor = 1 + generator.below(CALIBRATION_BUCKETS as u64);
            let bits = (1.0 / divisor as f64).to_bits();
            let quantile = f64::from_bits(bits - 1 + generator.below(3));
            if quantile <= 1.0 {
                quantile
            } else {
                1.0
            }
        }
        10 => 1.0,
        _ => {
            if generator.below(2) == 0 {
                f64::from_bits(1)
            } else {
                f64::MIN_POSITIVE
            }
        }
    }
}

fn generated_counts(generator: &mut Generator) -> Vec<u64> {
    match generator.below(12) {
        0..=7 => {
            let length = 1 + generator.below(CALIBRATION_BUCKETS as u64);
            (0..length).map(|_| generator.below(1_000_001)).collect()
        }
        8 => vec![generator.next().max(1)],
        9 => {
            let mut counts = vec![0; 1 + generator.below(CALIBRATION_BUCKETS as u64) as usize];
            counts[0] = generator.next().max(1);
            counts
        }
        10 => {
            let mut counts = vec![0; 1 + generator.below(CALIBRATION_BUCKETS as u64) as usize];
            *counts.last_mut().unwrap() = generator.next().max(1);
            counts
        }
        _ => {
            let count = 1 + generator.below(u64::MAX / 2);
            vec![count, 0, count]
        }
    }
}

// Derive the exact binary rational without decoding the IEEE-754 fields,
// then apply `ceil(samples * numerator / 2^denominator_power)`.
fn rational_rank(samples: u64, quantile: f64) -> u128 {
    let mut numerator = quantile;
    let mut denominator_power = 0_u32;
    while numerator.fract() != 0.0 {
        numerator *= 2.0;
        denominator_power += 1;
    }

    #[allow(clippy::cast_possible_truncation, clippy::cast_sign_loss)]
    let numerator = numerator as u64;
    let product = u128::from(samples) * u128::from(numerator);
    let rank = if denominator_power >= u128::BITS - product.leading_zeros() {
        1
    } else {
        let quotient = product >> denominator_power;
        let remainder_mask = (1_u128 << denominator_power) - 1;
        quotient + u128::from(product & remainder_mask != 0)
    };
    rank.clamp(1, u128::from(samples))
}

fn assert_rank_case(counts: &[u64], quantile: f64) -> RankSelection {
    let samples = counts.iter().copied().sum::<u64>();
    let selection = nearest_rank(counts, quantile.to_bits()).unwrap().unwrap();
    let production_rank = quantile_rank(samples, quantile.to_bits());

    assert!((1..=u128::from(samples)).contains(&selection.rank));
    assert_eq!(selection.rank, rational_rank(samples, quantile));
    assert_eq!(selection.rank, production_rank);

    let before = counts[..selection.bucket]
        .iter()
        .map(|count| u128::from(*count))
        .sum::<u128>();
    let through = before + u128::from(counts[selection.bucket]);
    assert!(before < selection.rank);
    assert!(through >= selection.rank);
    selection
}

#[test]
fn nearest_rank_boundary_corpus() {
    let predecessor_of_one = f64::from_bits(1.0_f64.to_bits() - 1);
    let cases = [
        (vec![1], 0.5),
        (vec![u64::MAX, 0], 0.5),
        (vec![0, u64::MAX], 0.5),
        (vec![1, 2, 3], predecessor_of_one),
        (vec![1, 2, 3], 1.0),
        (vec![1, 1, 1, 1], 0.25),
        (vec![1, 1, 1, 1], 0.5),
        (vec![1, 1, 1, 1], 0.75),
        (vec![1; 10], 0.3),
        (vec![1, 2, 3], f64::from_bits(1)),
        (vec![1, 2, 3], f64::MIN_POSITIVE),
    ];

    for (counts, quantile) in cases {
        assert_rank_case(&counts, quantile);
    }
}

#[test]
fn nearest_rank_matches_exact_rational_oracle_and_is_monotonic() {
    let mut generator = Generator(0x5a5a_5a5a_5a5a_5a5a);
    let mut cases = 0;
    while cases < 256 {
        let counts = generated_counts(&mut generator);
        let first_quantile = generated_quantile(&mut generator);
        let second_quantile = generated_quantile(&mut generator);
        if counts.iter().all(|count| *count == 0) {
            continue;
        }
        let lower_quantile = first_quantile.min(second_quantile);
        let upper_quantile = first_quantile.max(second_quantile);
        let lower = assert_rank_case(&counts, lower_quantile);
        let upper = assert_rank_case(&counts, upper_quantile);

        assert!(lower.rank <= upper.rank);
        assert!(lower.bucket <= upper.bucket);
        cases += 1;
    }
}

#[test]
fn default_table_is_byte_for_byte_compatible_with_the_poc() {
    assert_eq!(*default_bounds(), EXPECTED_DEFAULT_BOUNDS);
}

#[test]
fn default_bucketization_is_total_and_bounds_are_upper_exclusive() {
    let bounds = default_bounds();

    assert_eq!(bucketize(0, bounds), 0);
    assert_eq!(bucketize(99, bounds), 0);
    assert_eq!(bucketize(100, bounds), 1);
    assert_eq!(bucketize(134, bounds), 1);
    assert_eq!(bucketize(135, bounds), 2);
    assert_eq!(bucketize(10_000_000_000 - 1, bounds), BUCKETS - 2);
    assert_eq!(bucketize(10_000_000_000, bounds), BUCKETS - 1);
    assert_eq!(bucketize(u64::MAX, bounds), BUCKETS - 1);
}

#[test]
fn calibration_table_matches_the_pinned_fixture() {
    assert_eq!(*calibration_bounds(), EXPECTED_CALIBRATION_BOUNDS);
}

#[test]
#[allow(
    clippy::cast_possible_truncation,
    clippy::cast_precision_loss,
    clippy::cast_sign_loss
)]
fn calibration_fixture_uses_round_half_up_geometric_subdivisions() {
    let mut generated = Vec::with_capacity(CALIBRATION_BUCKETS - 1);
    for interval in EXPECTED_DEFAULT_BOUNDS.windows(2) {
        let lower = interval[0];
        let upper = interval[1];
        generated.push(lower);
        for subdivision in 1..4 {
            let ratio = upper as f64 / lower as f64;
            let value = lower as f64 * ratio.powf(f64::from(subdivision) / 4.0);
            generated.push(value.round() as u64);
        }
    }
    generated.push(*EXPECTED_DEFAULT_BOUNDS.last().unwrap());

    assert_eq!(generated, EXPECTED_CALIBRATION_BOUNDS);
    assert!(generated.windows(2).all(|pair| pair[0] < pair[1]));
}

#[test]
fn calibration_bucketization_has_lower_and_upper_terminals() {
    let bounds = calibration_bounds();

    assert_eq!(bucketize(0, bounds), 0);
    assert_eq!(bucketize(99, bounds), 0);
    assert_eq!(bucketize(100, bounds), 1);
    assert_eq!(bucketize(107, bounds), 1);
    assert_eq!(bucketize(108, bounds), 2);
    assert_eq!(
        bucketize(10_000_000_000 - 1, bounds),
        CALIBRATION_BUCKETS - 2
    );
    assert_eq!(bucketize(10_000_000_000, bounds), CALIBRATION_BUCKETS - 1);
    assert_eq!(bucketize(u64::MAX, bounds), CALIBRATION_BUCKETS - 1);
}

#[test]
fn calibration_bucketization_from_default_bucket_matches_the_pinned_grid() {
    for value in calibration_bounds()
        .iter()
        .flat_map(|bound| [bound - 1, *bound, bound + 1])
        .chain([0, u64::MAX])
    {
        let default_bucket = bucketize(value, default_bounds());
        assert_eq!(
            calibration_bucketize(value, default_bucket),
            bucketize(value, calibration_bounds()),
            "value={value}"
        );
    }
}

#[test]
fn nearest_rank_handles_empty_singleton_and_population_boundaries() {
    assert_eq!(nearest_rank(&[], 0.99_f64.to_bits()), Ok(None));
    assert_eq!(
        nearest_rank(&[0, 1, 0], 0.99_f64.to_bits()),
        Ok(Some(RankSelection {
            bucket: 1,
            rank: 1,
            samples: 1,
        }))
    );
    assert_eq!(nearest_rank(&[1, 1, 1, 1], 0.5_f64.to_bits()).unwrap().unwrap().bucket, 1);
    assert_eq!(
        nearest_rank(&[1, 1, 1, 1], 0.500_000_1_f64.to_bits())
            .unwrap()
            .unwrap()
            .bucket,
        2
    );
    assert_eq!(nearest_rank(&[1, 1, 1, 1], 1.0_f64.to_bits()).unwrap().unwrap().bucket, 3);
}

#[test]
fn invalid_quantiles_are_rejected() {
    for quantile in [
        f64::NAN,
        f64::INFINITY,
        f64::NEG_INFINITY,
        -0.5,
        0.0,
        1.000_000_1,
    ] {
        assert_eq!(
            nearest_rank(&[1], quantile.to_bits()),
            Err(QuantileError::InvalidQuantile)
        );
        assert_eq!(
            estimate_quantile(&[1, 0], &[100], quantile.to_bits()),
            Err(QuantileError::InvalidQuantile)
        );
    }
}

#[test]
fn counter_total_overflow_is_reported() {
    assert_eq!(
        nearest_rank(&[u64::MAX, 1], 0.99_f64.to_bits()),
        Err(QuantileError::CounterTotalOverflow)
    );
    assert_eq!(
        estimate_quantile(&[u64::MAX, u64::MAX], &[100], 0.99_f64.to_bits()),
        Err(QuantileError::CounterTotalOverflow)
    );
}

#[test]
fn estimate_rejects_mismatched_shapes() {
    assert_eq!(
        estimate_quantile(&[], &[], 0.99_f64.to_bits()),
        Err(QuantileError::ShapeMismatch)
    );
    assert_eq!(
        estimate_quantile(&[1], &[], 0.99_f64.to_bits()),
        Err(QuantileError::ShapeMismatch)
    );
    assert_eq!(
        estimate_quantile(&[1], &[100], 0.99_f64.to_bits()),
        Err(QuantileError::ShapeMismatch)
    );
    assert_eq!(
        estimate_quantile(&[1, 2, 3], &[100], 0.99_f64.to_bits()),
        Err(QuantileError::ShapeMismatch)
    );
}

#[test]
fn selected_terminal_bucket_has_no_finite_estimate() {
    let bounds = calibration_bounds();
    let mut counts = [0; CALIBRATION_BUCKETS];

    counts[0] = 1;
    let lower = estimate_quantile(&counts, bounds, 0.99_f64.to_bits()).unwrap().unwrap();
    assert_eq!(lower.terminal, TerminalStatus::Lower);
    assert_eq!(lower.lower_bound, None);
    assert_eq!(lower.upper_bound, Some(100));
    assert_eq!(lower.value, None);
    assert_eq!(lower.max_relative_error, None);

    counts[0] = 0;
    counts[CALIBRATION_BUCKETS - 1] = 1;
    let upper = estimate_quantile(&counts, bounds, 0.99_f64.to_bits()).unwrap().unwrap();
    assert_eq!(upper.terminal, TerminalStatus::Upper);
    assert_eq!(upper.lower_bound, Some(10_000_000_000));
    assert_eq!(upper.upper_bound, None);
    assert_eq!(upper.value, None);
    assert_eq!(upper.max_relative_error, None);
}

#[test]
fn finite_estimate_uses_u128_minimax_representative() {
    assert_eq!(
        finite_representative(9_284_145_445, 10_000_000_000),
        Some(9_628_785_959)
    );

    let mut counts = [0; CALIBRATION_BUCKETS];
    counts[CALIBRATION_BUCKETS - 2] = 1;
    let estimate = estimate_quantile(&counts, calibration_bounds(), 0.99_f64.to_bits())
        .unwrap()
        .unwrap();
    assert_eq!(estimate.terminal, TerminalStatus::Finite);
    assert_eq!(estimate.lower_bound, Some(9_284_145_445));
    assert_eq!(estimate.upper_bound, Some(10_000_000_000));
    assert_eq!(estimate.value, Some(9_628_785_959));
    assert!(
        (quotient(estimate.max_relative_error.unwrap()) - 0.037_121_404_059_188_27).abs()
            < f64::EPSILON
    );
}

#[allow(clippy::cast_precision_loss)]
fn quotient(ratio: Ratio) -> f64 {
    ratio.numerator as f64 / ratio.denominator as f64
}

#[test]
fn representative_is_the_harmonic_mean_rounded_half_up() {
    assert_eq!(finite_representative(100, 108), Some(104));
    assert_eq!(finite_representative(1, 3), Some(2));
    assert_eq!(finite_representative(0, 10), Some(0));
    assert_eq!(finite_representative(5, 5), None);
    assert_eq!(finite_representative(6, 5), None);
    assert_eq!(finite_representative(u64::MAX - 1, u64::MAX), None);
    assert_eq!(
        relative_error(100, 108),
        Some(Ratio {
            numerator: 8,
            denominator: 208
        })
    );
    assert_eq!(relative_error(5, 5), None);
}

#[test]
fn ranks_come_from_the_exact_binary_quantile() {
    assert_eq!(quantile_rank(100, 0.99_f64.to_bits()), 99);
    assert_eq!(quantile_rank(10, 0.3_f64.to_bits()), 3);
    assert_eq!(quantile_rank(10, 0.1_f64.to_bits()), 2);
    assert_eq!(quantile_rank(u64::MAX, 1.0_f64.to_bits()), u128::from(u64::MAX));
    assert_eq!(quantile_rank(u64::MAX, f64::from_bits(1).to_bits()), 1);
}

#[test]
fn larger_values_never_fall_into_earlier_buckets() {
    let mut last = 0;
    for bound in default_bounds() {
        for value in [bound - 1, *bound] {
            let bucket = default_bucketize(value);
            assert!(bucket >= last);
            last = bucket;
        }
    }
    assert_eq!(last, BUCKETS - 1);
}
