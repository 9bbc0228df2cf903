//! Binary64 quotients against thresholds, held against floating-point hardware.

use tracegrams::binary64::{divide, reaches_threshold, round_integer, Binary};
use tracegrams::Ratio;

#[allow(clippy::cast_precision_loss)]
fn quotient(ratio: Ratio) -> f64 {
    ratio.numerator as f64 / ratio.denominator as f64
}

fn number(binary: Binary) -> f64 {
    let significand = f64::from_bits(binary.significand + (1075 << 52) - (1 << 52));
    if binary.significand == 0 {
        0.0
    } else {
        significand * 2.0_f64.powi(binary.exponent)
    }
}

struct Random(u64);

impl Random {
    fn next(&mut self) -> u64 {
        self.0 ^= self.0 << 13;
        self.0 ^= self.0 >> 7;
        self.0 ^= self.0 << 17;
        self.0
    }

    fn wide(&mut self) -> u128 {
        let wide = (u128::from(self.next()) << 64) | u128::from(self.next());
        wide >> (self.next() % 128)
    }
}

fn neighbours(value: f64) -> [u64; 3] {
    let bits = value.to_bits();
    [bits.saturating_sub(1), bits, bits + 1]
}

#[test]
fn integers_are_rounded_as_hardware_rounds_them() {
    let mut random = Random(0x9e37_79b9_7f4a_7c15);
    let mut integers = vec![
        0,
        1,
        (1 << 53) - 1,
        1 << 53,
        (1 << 53) + 1,
        (1 << 53) + 3,
        (1 << 54) - 1,
        u128::from(u64::MAX),
        u128::MAX,
    ];
    for _ in 0..20_000 {
        integers.push(random.wide());
    }
    for integer in integers {
        #[allow(clippy::cast_precision_loss)]
        let expected = integer as f64;
        assert_eq!(number(round_integer(integer)).to_bits(), expected.to_bits());
    }
}

#[test]
fn quotients_are_rounded_as_hardware_rounds_them() {
    let mut random = Random(0x2545_f491_4f6c_dd1d);
    for _ in 0..20_000 {
        let ratio = Ratio {
            numerator: random.wide(),
            denominator: random.wide().max(1),
        };
        let value = divide(
            round_integer(ratio.numerator),
            round_integer(ratio.denominator),
        );
        assert_eq!(number(value).to_bits(), quotient(ratio).to_bits());
    }
}

#[test]
fn thresholds_are_reached_as_hardware_compares_them() {
    let mut random = Random(0xda94_2042_e4dd_58b5);
    let mut ratios = vec![
        Ratio {
            numerator: 0,
            denominator: 1,
        },
        Ratio {
            numerator: 4,
            denominator: 5,
        },
        Ratio {
            numerator: u128::MAX,
            denominator: 1,
        },
        Ratio {
            numerator: 1,
            denominator: u128::MAX,
        },
        Ratio {
            numerator: 1,
            denominator: 0,
        },
        Ratio {
            numerator: 0,
            denominator: 0,
        },
    ];
    for _ in 0..5_000 {
        ratios.push(Ratio {
            numerator: random.wide(),
            denominator: random.wide(),
        });
    }
    let fixed = [
        0.0,
        -0.0,
        0.7,
        0.8,
        1.0,
        10.0,
        -1.0,
        5e-324,
        f64::MIN_POSITIVE,
        f64::MAX,
        f64::INFINITY,
        f64::NEG_INFINITY,
        f64::NAN,
        -f64::NAN,
    ];
    for ratio in ratios {
        let value = quotient(ratio);
        let mut patterns: Vec<u64> = fixed.iter().map(|number| number.to_bits()).collect();
        patterns.extend(neighbours(value));
        patterns.push(random.next());
        for bits in patterns {
            assert_eq!(
                reaches_threshold(ratio, bits),
                value >= f64::from_bits(bits),
                "{ratio:?} against {bits:#x}"
            );
        }
    }
}

#[test]
fn a_rounded_quotient_reaches_the_threshold_that_its_exact_one_misses() {
    // Four fifths lie below the binary64 number nearest to 0.8.
    let ratio = Ratio {
        numerator: 4,
        denominator: 5,
    };
    let bits = 0.8_f64.to_bits();
    assert!(reaches_threshold(ratio, bits));
    assert!(!reaches_threshold(ratio, bits + 1));
    assert_eq!(
        divide(round_integer(4), round_integer(5)),
        Binary {
            significand: 0x19_9999_9999_999a,
            exponent: -53,
        }
    );
}

#[test]
fn whatever_reaches_a_threshold_reaches_lower_ones() {
    let ratio = Ratio {
        numerator: 2,
        denominator: 3,
    };
    let highest = (2.0_f64 / 3.0).to_bits();
    for below in [0, 1, 1 << 20, 1 << 52, highest] {
        assert!(reaches_threshold(ratio, highest - below));
    }
    assert!(!reaches_threshold(ratio, highest + 1));
}
