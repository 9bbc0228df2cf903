//! What thresholds, policies and quantiles mean as numbers.

use vstd::arithmetic::power2::{lemma2_to64, lemma2_to64_rest, lemma_pow2_adds, lemma_pow2_pos, pow2};
use vstd::prelude::*;

use crate::binary64::{
    at_least, half_even, has_magnitude, law_half_even_is_nearest,
    law_positive_quotients_have_one_magnitude, nearest_multiple, normalized, quotient_of, reaches,
    reaches_power, rounded, same_number, value_of, Binary,
};
use crate::diagnose::{experimental_policy, meets};
use crate::quantile::{significand, valid_quantile};
use crate::ratio::Ratio;

verus! {

/// A power of two where an exponent is positive, and one elsewhere.
pub open spec fn power_up(exponent: int) -> nat {
    if exponent > 0 {
        pow2(exponent as nat)
    } else {
        1
    }
}

/// A number of 53 significant bits is nearest to a quotient, and the even one of
/// two nearest ones. Below a power of two numbers are twice as close as above.
pub open spec fn is_nearest(number: Binary, numerator: nat, denominator: nat) -> bool {
    let size = number.significand as int;
    let value = numerator * power_up(-number.exponent);
    let unit = denominator * power_up(number.exponent as int);
    if numerator == 0 {
        size == 0
    } else {
        &&& 0x10_0000_0000_0000 <= size < 0x20_0000_0000_0000
        &&& (2 * size - 1) * unit <= 2 * value
        &&& 2 * value <= (2 * size + 1) * unit
        &&& (2 * size - 1) * unit == 2 * value ==> size % 2 == 0
        &&& (2 * size + 1) * unit == 2 * value ==> size % 2 == 0
        &&& size == 0x10_0000_0000_0000 ==> (4 * size - 1) * unit <= 4 * value
    }
}

proof fn lemma_power_up(exponent: int)
    ensures
        power_up(exponent) > 0,
        exponent >= 0 ==> power_up(exponent) == pow2(exponent as nat),
{
    lemma2_to64();
    if exponent > 0 {
        lemma_pow2_pos(exponent as nat);
    }
}

/// A quotient reaches a power of two when its multiple reaches a higher one.
proof fn lemma_scaled_power(numerator: nat, denominator: nat, exponent: int, extra: nat)
    ensures
        reaches_power(numerator, denominator, exponent + extra) <==> numerator * power_up(-exponent)
            >= pow2(extra) * (denominator * power_up(exponent)),
{
    let n = numerator as int;
    let d = denominator as int;
    let factor = pow2(extra) as int;
    lemma_power_up(exponent);
    lemma_power_up(-exponent);
    lemma_pow2_pos(extra);
    lemma2_to64();
    if exponent >= 0 {
        lemma_pow2_adds(exponent as nat, extra);
        let low = pow2(exponent as nat) as int;
        assert(d * (low * factor) == factor * (d * low)) by (nonlinear_arith);
        assert(n * 1 == n);
    } else if exponent + extra >= 0 {
        let rest = (exponent + extra) as nat;
        let down = (-exponent) as nat;
        lemma_pow2_adds(rest, down);
        lemma_pow2_pos(down);
        let high = pow2(rest) as int;
        let low = pow2(down) as int;
        assert(n >= d * high <==> n * low >= (high * low) * (d * 1)) by (nonlinear_arith)
            requires
                low > 0,
        ;
    } else {
        let rest = (-(exponent + extra)) as nat;
        lemma_pow2_adds(rest, extra);
        lemma_pow2_pos(rest);
        let low = pow2(rest) as int;
        assert(n * low >= d <==> n * (low * factor) >= factor * (d * 1)) by (nonlinear_arith)
            requires
                factor > 0,
        ;
    }
}

/// Quotients of limited numbers have limited magnitudes.
proof fn lemma_magnitude_is_limited(numerator: nat, denominator: nat, power: int)
    requires
        0 < numerator <= u128::MAX,
        0 < denominator <= u128::MAX,
        has_magnitude(numerator, denominator, power),
    ensures
        -130 <= power <= 128,
{
    let n = numerator as int;
    let d = denominator as int;
    lemma2_to64();
    lemma2_to64_rest();
    lemma_pow2_adds(64, 64);
    assert(pow2(128) == 0x1_0000_0000_0000_0000_0000_0000_0000_0000) by {
        assert(0x1_0000_0000_0000_0000int * 0x1_0000_0000_0000_0000int
            == 0x1_0000_0000_0000_0000_0000_0000_0000_0000int);
    }
    let limit = pow2(128) as int;
    if power > 128 {
        lemma_pow2_adds(128, (power - 128) as nat);
        lemma_pow2_pos((power - 128) as nat);
        let more = pow2((power - 128) as nat) as int;
        assert(d * (limit * more) >= limit) by (nonlinear_arith)
            requires
                d >= 1,
                more >= 1,
                limit >= 1,
        ;
    }
    if power < -130 {
        let down = (-(power + 1)) as nat;
        lemma_pow2_adds(128, (down - 128) as nat);
        lemma_pow2_pos((down - 128) as nat);
        let more = pow2((down - 128) as nat) as int;
        assert(n * (limit * more) >= limit) by (nonlinear_arith)
            requires
                n >= 1,
                more >= 1,
                limit >= 1,
        ;
    }
}

/// Of two nearest integers rounding takes the even one.
proof fn lemma_ties_are_even(numerator: nat, denominator: nat)
    requires
        denominator > 0,
    ensures
        ({
            let nearest = half_even(numerator, denominator) as int;
            &&& (2 * nearest - 1) * denominator == 2 * numerator ==> nearest % 2 == 0
            &&& (2 * nearest + 1) * denominator == 2 * numerator ==> nearest % 2 == 0
        }),
{
    vstd::arithmetic::div_mod::lemma_fundamental_div_mod(numerator as int, denominator as int);
    let below = (numerator / denominator) as int;
    let d = denominator as int;
    assert((2 * below + 1) * d == 2 * (d * below) + d) by (nonlinear_arith);
    assert((2 * below - 1) * d == 2 * (d * below) - d) by (nonlinear_arith);
    assert((2 * (below + 1) + 1) * d == 2 * (d * below) + 3 * d) by (nonlinear_arith);
    assert((2 * (below + 1) - 1) * d == 2 * (d * below) + d) by (nonlinear_arith);
}

/// A nearest multiple of 53 bits, or the next power of two, normalizes to the
/// nearest number.
proof fn lemma_normalized_is_nearest(numerator: nat, denominator: nat, exponent: int)
    requires
        numerator > 0,
        denominator > 0,
        -1000 <= exponent <= 1000,
        pow2(52) * (denominator * power_up(exponent)) <= numerator * power_up(-exponent),
        numerator * power_up(-exponent) < pow2(53) * (denominator * power_up(exponent)),
    ensures
        is_nearest(
            normalized(nearest_multiple(numerator, denominator, exponent), exponent),
            numerator,
            denominator,
        ),
{
    lemma_power_up(exponent);
    lemma_power_up(-exponent);
    lemma_power_up(exponent + 1);
    lemma_power_up(-(exponent + 1));
    lemma2_to64_rest();
    let value = (numerator * power_up(-exponent)) as int;
    let unit = (denominator * power_up(exponent)) as int;
    assert(unit > 0) by (nonlinear_arith)
        requires
            unit == denominator * power_up(exponent),
            denominator > 0,
            power_up(exponent) > 0,
    ;
    assert(numerator * 1 == numerator);
    assert(denominator * 1 == denominator);
    let nearest = nearest_multiple(numerator, denominator, exponent) as int;
    assert(nearest == half_even(value as nat, unit as nat));
    law_half_even_is_nearest(value as nat, unit as nat);
    lemma_ties_are_even(value as nat, unit as nat);
    let low = 0x10_0000_0000_0000int;
    assert(low <= nearest <= 2 * low) by (nonlinear_arith)
        requires
            unit > 0,
            low * unit <= value < 2 * low * unit,
            2 * value <= (2 * nearest + 1) * unit,
            2 * value >= (2 * nearest - 1) * unit,
    ;
    assert((4 * low - 1) * unit <= 4 * value) by (nonlinear_arith)
        requires
            unit > 0,
            low * unit <= value,
    ;
    if nearest == 2 * low {
        let next = exponent + 1;
        let above = (numerator * power_up(-next)) as int;
        let whole = (denominator * power_up(next)) as int;
        if exponent >= 0 {
            lemma_pow2_adds(exponent as nat, 1);
            lemma2_to64();
            assert(whole == 2 * unit) by (nonlinear_arith)
                requires
                    whole == denominator * power_up(next),
                    unit == denominator * power_up(exponent),
                    power_up(next) == power_up(exponent) * 2,
            ;
            assert(above == value);
        } else {
            lemma_pow2_adds((-next) as nat, 1);
            lemma2_to64();
            assert(value == 2 * above) by (nonlinear_arith)
                requires
                    value == numerator * power_up(-exponent),
                    above == numerator * power_up(-next),
                    power_up(-exponent) == power_up(-next) * 2,
            ;
            assert(whole == unit);
        }
        assert(2 * unit * above == whole * value) by (nonlinear_arith)
            requires
                (whole == 2 * unit && above == value) || (value == 2 * above && whole == unit),
        ;
        assert((2 * (2 * low) - 1) * unit == 4 * (low * unit) - unit) by (nonlinear_arith);
        assert((2 * low - 1) * whole == 2 * (low * whole) - whole) by (nonlinear_arith);
        assert((2 * low + 1) * whole == 2 * (low * whole) + whole) by (nonlinear_arith);
        assert((4 * low - 1) * whole == 4 * (low * whole) - whole) by (nonlinear_arith);
        assert(2 * low * unit == 2 * (low * unit)) by (nonlinear_arith);
        assert(low * (2 * unit) == 2 * (low * unit)) by (nonlinear_arith);
    }
}

/// Rounding a quotient finds the nearest number of 53 significant bits, and the
/// even one of two nearest ones.
pub proof fn law_rounding_finds_the_nearest_number(numerator: nat, denominator: nat)
    requires
        numerator <= u128::MAX,
        0 < denominator <= u128::MAX,
    ensures
        is_nearest(rounded(numerator, denominator), numerator, denominator),
        -200 <= rounded(numerator, denominator).exponent <= 200,
{
    if numerator > 0 {
        law_positive_quotients_have_one_magnitude(numerator, denominator);
        let power = choose|power: int| has_magnitude(numerator, denominator, power);
        assert(has_magnitude(numerator, denominator, power));
        lemma_magnitude_is_limited(numerator, denominator, power);
        let exponent = power - 52;
        lemma_scaled_power(numerator, denominator, exponent, 52);
        lemma_scaled_power(numerator, denominator, exponent, 53);
        lemma_normalized_is_nearest(numerator, denominator, exponent);
    }
}

/// Two numbers and the nearest quotient of their significands.
pub open spec fn divides_nearest(
    ratio: Ratio,
    dividend: Binary,
    divisor: Binary,
    quotient: Binary,
) -> bool {
    &&& is_nearest(dividend, ratio.numerator as nat, 1)
    &&& is_nearest(divisor, ratio.denominator as nat, 1)
    &&& is_nearest(quotient, dividend.significand as nat, divisor.significand as nat)
}

/// The value of a ratio is zero for no numerator, and else the nearest quotient of
/// the numbers that are nearest to its terms.
pub proof fn law_values_are_rounded_quotients(ratio: Ratio)
    requires
        ratio.denominator > 0,
    ensures
        ({
            let value = value_of(ratio);
            &&& -1000 <= value.exponent <= 1000
            &&& ratio.numerator == 0 ==> value.significand == 0
            &&& ratio.numerator > 0 ==> exists|
                dividend: Binary,
                divisor: Binary,
                quotient: Binary,
            | #[trigger]
                divides_nearest(ratio, dividend, divisor, quotient) && value.significand
                    == quotient.significand && value.exponent == quotient.exponent
                    + dividend.exponent - divisor.exponent
        }),
{
    law_rounding_finds_the_nearest_number(ratio.numerator as nat, 1);
    law_rounding_finds_the_nearest_number(ratio.denominator as nat, 1);
    let dividend = rounded(ratio.numerator as nat, 1);
    let divisor = rounded(ratio.denominator as nat, 1);
    if ratio.numerator > 0 {
        law_rounding_finds_the_nearest_number(
            dividend.significand as nat,
            divisor.significand as nat,
        );
        let quotient = rounded(dividend.significand as nat, divisor.significand as nat);
        assert(divides_nearest(ratio, dividend, divisor, quotient));
        assert(value_of(ratio) == quotient_of(dividend, divisor));
    }
}

/// The size of a finite pattern: a whole number of the smallest positive one.
pub open spec fn steps(bits: u64) -> nat {
    if bits < 0x10_0000_0000_0000 {
        bits as nat
    } else {
        ((0x10_0000_0000_0000 + bits % 0x10_0000_0000_0000) * pow2(
            (bits / 0x10_0000_0000_0000 - 1) as nat,
        )) as nat
    }
}

/// A ratio reaches a finite threshold when its value is at least the number that
/// the pattern stands for, in steps of the smallest positive one. What is not a
/// number is never reached, nothing finite is infinite, and every number is at
/// least a negative one. The quotient by zero is infinite, and not a number for
/// zero itself.
pub proof fn law_thresholds_are_held_against_values(ratio: Ratio, bits: u64)
    ensures
        ({
            let value = value_of(ratio);
            let number = bits % 0x8000_0000_0000_0000 <= 0x7ff0_0000_0000_0000;
            &&& !number ==> !reaches(ratio, bits)
            &&& number && ratio.denominator == 0 ==> (reaches(ratio, bits) <==> ratio.numerator
                > 0)
            &&& number && ratio.denominator > 0 && bits >= 0x8000_0000_0000_0000 ==> reaches(
                ratio,
                bits,
            )
            &&& ratio.denominator > 0 && bits == 0x7ff0_0000_0000_0000 ==> !reaches(ratio, bits)
            &&& ratio.denominator > 0 && bits < 0x7ff0_0000_0000_0000 ==> (reaches(ratio, bits)
                <==> value.significand * pow2((value.exponent + 1074) as nat) >= steps(bits))
        }),
{
    if ratio.denominator > 0 && bits < 0x7ff0_0000_0000_0000 {
        law_values_are_rounded_quotients(ratio);
        let value = value_of(ratio);
        let size = value.significand as int;
        let wide = significand(bits) as int;
        let exponent = if bits < 0x10_0000_0000_0000 {
            -1074int
        } else {
            bits / 0x10_0000_0000_0000 - 1075
        };
        lemma2_to64();
        let shift = (exponent + 1074) as nat;
        assert(wide * pow2(0) == wide) by (nonlinear_arith)
            requires
                pow2(0) == 1,
        ;
        assert(steps(bits) == wide * pow2(shift));
        let up = (value.exponent + 1074) as nat;
        if value.exponent >= exponent {
            let gap = (value.exponent - exponent) as nat;
            lemma_pow2_adds(gap, shift);
            lemma_pow2_pos(shift);
            let low = pow2(shift) as int;
            let high = pow2(gap) as int;
            assert(size * high >= wide <==> size * (high * low) >= wide * low) by (nonlinear_arith)
                requires
                    low > 0,
            ;
        } else {
            let gap = (exponent - value.exponent) as nat;
            lemma_pow2_adds(gap, up);
            lemma_pow2_pos(up);
            let low = pow2(up) as int;
            let high = pow2(gap) as int;
            assert(size >= wide * high <==> size * low >= wide * (high * low)) by (nonlinear_arith)
                requires
                    low > 0,
            ;
        }
        assert(reaches(ratio, bits) == at_least(value, significand(bits), exponent));
    }
}

/// A score meets a threshold when there is one and it reaches the threshold.
pub proof fn law_only_available_scores_meet_thresholds(score: Option<Ratio>, bits: u64)
    ensures
        meets(score, bits) <==> score is Some && reaches(score->0, bits),
{
}

/// Patterns are those of equal numbers when both are numbers and they are the
/// same, whatever the sign of a zero.
pub proof fn law_equal_numbers_have_equal_sizes(first: u64, second: u64)
    ensures
        ({
            let sign = 0x8000_0000_0000_0000u64;
            let infinity = 0x7ff0_0000_0000_0000u64;
            same_number(first, second) <==> first % sign <= infinity && second % sign <= infinity
                && first % sign == second % sign && (first % sign == 0 || (first >= sign <==> second
                >= sign))
        }),
{
}

/// The synthetic policy has the numbers that are nearest to seven tenths, ten and
/// four fifths.
pub proof fn law_synthetic_policy_is_nearest_to_its_decimals()
    ensures
        ({
            let policy = experimental_policy();
            let onset = policy.onset_threshold;
            let lift = policy.amplification_lift_threshold;
            let carry = policy.carry_through_threshold;
            &&& onset / 0x10_0000_0000_0000 == 1022
            &&& is_nearest(
                Binary {
                    significand: (0x10_0000_0000_0000 + onset % 0x10_0000_0000_0000) as u64,
                    exponent: (-53int) as i32,
                },
                7,
                10,
            )
            &&& lift / 0x10_0000_0000_0000 == 1026
            &&& 0x10_0000_0000_0000 + lift % 0x10_0000_0000_0000 == 10 * 0x2_0000_0000_0000
            &&& carry / 0x10_0000_0000_0000 == 1022
            &&& is_nearest(
                Binary {
                    significand: (0x10_0000_0000_0000 + carry % 0x10_0000_0000_0000) as u64,
                    exponent: (-53int) as i32,
                },
                4,
                5,
            )
        }),
{
    lemma2_to64_rest();
    let policy = experimental_policy();
    let unit = 0x10_0000_0000_0000u64;
    assert(policy.onset_threshold / unit == 1022 && policy.onset_threshold % unit
        == 0x6_6666_6666_6666);
    assert(policy.carry_through_threshold / unit == 1022 && policy.carry_through_threshold % unit
        == 0x9_9999_9999_999a);
    assert(policy.amplification_lift_threshold / unit == 1026
        && policy.amplification_lift_threshold % unit == 0x4_0000_0000_0000);
    lemma_nearest_to_decimals();
}

proof fn lemma_nearest_to_decimals()
    ensures
        is_nearest(
            Binary { significand: 0x16_6666_6666_6666, exponent: (-53int) as i32 },
            7,
            10,
        ),
        is_nearest(
            Binary { significand: 0x19_9999_9999_999a, exponent: (-53int) as i32 },
            4,
            5,
        ),
{
    lemma2_to64_rest();
    let exponent = (-53int) as i32;
    let up = power_up(-exponent) as int;
    let down = power_up(exponent as int) as int;
    assert(up == 0x20_0000_0000_0000 && down == 1);
    let onset = 0x16_6666_6666_6666int;
    let carry = 0x19_9999_9999_999aint;
    assert((2 * onset - 1) * (10 * down) < 2 * (7 * up) && 2 * (7 * up) < (2 * onset + 1) * (10
        * down)) by (nonlinear_arith)
        requires
            up == 0x20_0000_0000_0000,
            down == 1,
            onset == 0x16_6666_6666_6666,
    ;
    assert((2 * carry - 1) * (5 * down) < 2 * (4 * up) && 2 * (4 * up) < (2 * carry + 1) * (5
        * down)) by (nonlinear_arith)
        requires
            up == 0x20_0000_0000_0000,
            down == 1,
            carry == 0x19_9999_9999_999a,
    ;
}

/// Quantiles are the patterns of positive numbers up to one.
pub proof fn law_quantiles_are_positive_and_at_most_one(bits: u64)
    ensures
        valid_quantile(bits) <==> bits < 0x7ff0_0000_0000_0000 && 0 < steps(bits) && steps(bits)
            <= pow2(1074),
{
    let unit = 0x10_0000_0000_0000u64;
    if unit <= bits < 0x7ff0_0000_0000_0000 {
        lemma2_to64();
        lemma2_to64_rest();
        let field = (bits / unit) as int;
        let rest = (bits % unit) as int;
        let size = unit + rest;
        let shift = (field - 1) as nat;
        lemma_pow2_pos(shift);
        let power = pow2(shift) as int;
        assert(bits == field * unit + rest);
        assert(size * power > 0) by (nonlinear_arith)
            requires
                size > 0,
                power > 0,
        ;
        lemma_pow2_adds(52, 1022);
        lemma_pow2_pos(1022);
        let one = pow2(1022) as int;
        if field < 1023 {
            let gap = (1022 - shift) as nat;
            lemma_pow2_adds(gap, shift);
            lemma_pow2_adds(1, (gap - 1) as nat);
            lemma_pow2_pos((gap - 1) as nat);
            let high = pow2(gap) as int;
            assert(high >= 2);
            assert(size * power <= unit * one) by (nonlinear_arith)
                requires
                    one == high * power,
                    high >= 2,
                    power > 0,
                    0 <= size <= 2 * unit,
            ;
        } else if field == 1023 {
            assert(size * one <= unit * one <==> size <= unit) by (nonlinear_arith)
                requires
                    one > 0,
            ;
        } else {
            let gap = (shift - 1022) as nat;
            lemma_pow2_adds(gap, 1022);
            lemma_pow2_adds(1, (gap - 1) as nat);
            lemma_pow2_pos((gap - 1) as nat);
            let high = pow2(gap) as int;
            assert(high >= 2);
            assert(size * power > unit * one) by (nonlinear_arith)
                requires
                    power == high * one,
                    high >= 2,
                    one > 0,
                    size >= unit,
                    unit > 0,
            ;
        }
    } else if bits < unit {
        lemma2_to64();
        lemma2_to64_rest();
        lemma_pow2_adds(52, 1022);
        lemma_pow2_pos(1022);
        let one = pow2(1022) as int;
        assert(bits <= unit * one) by (nonlinear_arith)
            requires
                bits <= unit,
                one >= 1,
        ;
    }
}

} // verus!
