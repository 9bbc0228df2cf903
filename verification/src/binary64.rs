//! Binary64 quotients of exact ratios, held against thresholds.
//!
//! The value of a ratio is the binary64 quotient of its terms: either term is
//! rounded to binary64, and so is their quotient. Rounding is to the nearest
//! number of 53 significant bits, and to the even one of two nearest ones. All of
//! it is done in integers.

use vstd::arithmetic::power2::{
    lemma2_to64, lemma2_to64_rest, lemma_pow2_adds, lemma_pow2_pos, lemma_pow2_unfold, pow2,
};
use vstd::prelude::*;

use crate::quantile::{exponent_field, significand, HIDDEN_BIT};
use crate::ratio::Ratio;

verus! {

/// Pattern of the negative zero: the sign alone.
pub const SIGN_BIT: u64 = 0x8000_0000_0000_0000;

/// Pattern of infinity; larger ones below the sign are not numbers.
pub const INFINITY_BITS: u64 = 0x7ff0_0000_0000_0000;

/// A non-negative number: a significand times a power of two.
#[derive(Clone, Copy, Debug, PartialEq, Eq, Structural)]
pub struct Binary {
    /// Significand: zero, or 53 bits long.
    pub significand: u64,
    /// Power of two.
    pub exponent: i32,
}

impl Binary {
    /// Whether the significand is 53 bits long.
    pub open spec fn is_normal(self) -> bool {
        HIDDEN_BIT <= self.significand < 2 * HIDDEN_BIT
    }
}

/// Number zero.
pub open spec fn zero() -> Binary {
    Binary { significand: 0, exponent: 0 }
}

/// The nearest integer to a quotient, and the even one of two nearest ones.
pub open spec fn half_even(numerator: nat, denominator: nat) -> nat {
    let below = numerator / denominator;
    let rest = numerator % denominator;
    if 2 * rest > denominator || (2 * rest == denominator && below % 2 == 1) {
        below + 1
    } else {
        below
    }
}

/// Whether a quotient is at least a power of two.
pub open spec fn reaches_power(numerator: nat, denominator: nat, power: int) -> bool {
    if power >= 0 {
        numerator >= denominator * pow2(power as nat)
    } else {
        numerator * pow2((-power) as nat) >= denominator
    }
}

/// Whether a quotient lies between a power of two and the next one.
pub open spec fn has_magnitude(numerator: nat, denominator: nat, power: int) -> bool {
    reaches_power(numerator, denominator, power) && !reaches_power(
        numerator,
        denominator,
        power + 1,
    )
}

/// The nearest multiple of a power of two to a quotient.
pub open spec fn nearest_multiple(numerator: nat, denominator: nat, power: int) -> nat {
    if power >= 0 {
        half_even(numerator, denominator * pow2(power as nat))
    } else {
        half_even(numerator * pow2((-power) as nat), denominator)
    }
}

/// A significand of 53 bits, or the next power of two, with its exponent.
pub open spec fn normalized(significand: nat, exponent: int) -> Binary {
    if significand == 2 * HIDDEN_BIT {
        Binary { significand: HIDDEN_BIT, exponent: (exponent + 1) as i32 }
    } else {
        Binary { significand: significand as u64, exponent: exponent as i32 }
    }
}

/// A quotient rounded to 53 significant bits.
pub open spec fn rounded(numerator: nat, denominator: nat) -> Binary {
    if numerator == 0 {
        zero()
    } else {
        let power = choose|power: int| has_magnitude(numerator, denominator, power);
        normalized(nearest_multiple(numerator, denominator, power - 52), power - 52)
    }
}

/// The quotient of two numbers, rounded. Powers of two do not take part in the
/// rounding.
pub open spec fn quotient_of(dividend: Binary, divisor: Binary) -> Binary {
    if dividend.significand == 0 {
        zero()
    } else {
        let quotient = rounded(dividend.significand as nat, divisor.significand as nat);
        Binary {
            significand: quotient.significand,
            exponent: (quotient.exponent + dividend.exponent - divisor.exponent) as i32,
        }
    }
}

/// The binary64 quotient of the terms of a ratio with a non-zero denominator.
pub open spec fn value_of(ratio: Ratio) -> Binary {
    quotient_of(rounded(ratio.numerator as nat, 1), rounded(ratio.denominator as nat, 1))
}

/// Whether a pattern is not that of a number.
pub open spec fn is_nan(bits: u64) -> bool {
    bits % SIGN_BIT > INFINITY_BITS
}

/// Whether two patterns are those of equal numbers: what is not a number equals
/// nothing, and both zeros are equal.
pub open spec fn same_number(first: u64, second: u64) -> bool {
    !is_nan(first) && !is_nan(second) && (first == second || (first % SIGN_BIT == 0 && second
        % SIGN_BIT == 0))
}

/// Power of two that the significand of a finite non-negative pattern is
/// multiplied by.
pub open spec fn exponent_of(bits: u64) -> int {
    if exponent_field(bits) == 0 {
        -1074
    } else {
        exponent_field(bits) - 1075
    }
}

/// Whether a number is at least a significand times a power of two.
pub open spec fn at_least(value: Binary, significand: nat, exponent: int) -> bool {
    if value.exponent >= exponent {
        value.significand * pow2((value.exponent - exponent) as nat) >= significand
    } else {
        value.significand >= significand * pow2((exponent - value.exponent) as nat)
    }
}

/// Whether the binary64 quotient of a ratio is at least the binary64 number of a
/// pattern.
///
/// As in all of binary64, what is not a number is never reached and reaches
/// nothing, and the quotient by zero is infinite.
pub open spec fn reaches(ratio: Ratio, bits: u64) -> bool {
    if is_nan(bits) {
        false
    } else if ratio.denominator == 0 {
        ratio.numerator != 0
    } else if bits >= SIGN_BIT {
        true
    } else if bits == INFINITY_BITS {
        false
    } else {
        at_least(value_of(ratio), significand(bits), exponent_of(bits))
    }
}

proof fn lemma_lower_powers_are_reached(numerator: nat, denominator: nat, low: int, high: int)
    requires
        low <= high,
        reaches_power(numerator, denominator, high),
    ensures
        reaches_power(numerator, denominator, low),
    decreases high - low,
{
    if low < high {
        let next = high - 1;
        lemma2_to64();
        if high > 0 {
            lemma_pow2_unfold(high as nat);
            assert(denominator * pow2(high as nat) >= denominator * pow2(next as nat))
                by (nonlinear_arith)
                requires
                    pow2(high as nat) == 2 * pow2(next as nat),
                    pow2(next as nat) >= 0,
                    denominator >= 0,
            ;
        } else if high < 0 {
            lemma_pow2_unfold((-next) as nat);
            assert(numerator * pow2((-next) as nat) >= numerator * pow2((-high) as nat))
                by (nonlinear_arith)
                requires
                    pow2((-next) as nat) == 2 * pow2((-high) as nat),
                    pow2((-high) as nat) >= 0,
                    numerator >= 0,
            ;
        } else {
            assert(denominator * pow2(0) == denominator) by (nonlinear_arith)
                requires
                    pow2(0) == 1,
            ;
            assert(numerator * pow2(1) == 2 * numerator) by (nonlinear_arith)
                requires
                    pow2(1) == 2,
            ;
        }
        lemma_lower_powers_are_reached(numerator, denominator, low, next);
    }
}

/// A power of two exceeds its exponent.
proof fn lemma_power_exceeds_exponent(exponent: nat)
    ensures
        pow2(exponent) > exponent,
    decreases exponent,
{
    if exponent == 0 {
        lemma2_to64();
    } else {
        lemma_power_exceeds_exponent((exponent - 1) as nat);
        lemma_pow2_unfold(exponent);
    }
}

/// Between a power that is reached and one that is not lies the magnitude.
proof fn lemma_magnitude_between(numerator: nat, denominator: nat, low: int, high: int) -> (power:
    int)
    requires
        low < high,
        reaches_power(numerator, denominator, low),
        !reaches_power(numerator, denominator, high),
    ensures
        has_magnitude(numerator, denominator, power),
    decreases high - low,
{
    if reaches_power(numerator, denominator, high - 1) {
        high - 1
    } else {
        lemma_magnitude_between(numerator, denominator, low, high - 1)
    }
}

/// Every positive quotient lies between exactly one power of two and the next
/// one, so that rounding has one result.
pub proof fn law_positive_quotients_have_one_magnitude(numerator: nat, denominator: nat)
    requires
        numerator > 0,
        denominator > 0,
    ensures
        exists|power: int| has_magnitude(numerator, denominator, power),
        forall|first: int, second: int| #[trigger]
            has_magnitude(numerator, denominator, first) && #[trigger] has_magnitude(
                numerator,
                denominator,
                second,
            ) ==> first == second,
{
    lemma_power_exceeds_exponent(numerator);
    lemma_power_exceeds_exponent(denominator);
    let wide = pow2(denominator) as int;
    assert(numerator * wide >= wide) by (nonlinear_arith)
        requires
            numerator >= 1,
            wide >= 0,
    ;
    let large = pow2(numerator) as int;
    assert(denominator * large >= large) by (nonlinear_arith)
        requires
            denominator >= 1,
            large >= 0,
    ;
    let power = lemma_magnitude_between(
        numerator,
        denominator,
        -(denominator as int),
        numerator as int,
    );
    assert(has_magnitude(numerator, denominator, power));
    assert forall|first: int, second: int| #[trigger]
        has_magnitude(numerator, denominator, first) && #[trigger] has_magnitude(
            numerator,
            denominator,
            second,
        ) implies first == second by {
        if first < second {
            lemma_lower_powers_are_reached(numerator, denominator, first + 1, second);
        } else if second < first {
            lemma_lower_powers_are_reached(numerator, denominator, second + 1, first);
        }
    }
}

/// A quotient with a known magnitude is rounded at it.
proof fn lemma_rounded(numerator: nat, denominator: nat, power: int)
    requires
        numerator > 0,
        denominator > 0,
        has_magnitude(numerator, denominator, power),
    ensures
        rounded(numerator, denominator) == normalized(
            nearest_multiple(numerator, denominator, power - 52),
            power - 52,
        ),
{
    let chosen = choose|other: int| has_magnitude(numerator, denominator, other);
    law_positive_quotients_have_one_magnitude(numerator, denominator);
    assert(has_magnitude(numerator, denominator, chosen));
}

/// Rounding is to the nearest integer.
pub proof fn law_half_even_is_nearest(numerator: nat, denominator: nat)
    requires
        denominator > 0,
    ensures
        2 * numerator <= (2 * half_even(numerator, denominator) + 1) * denominator,
        2 * numerator >= (2 * half_even(numerator, denominator) - 1) * denominator,
{
    vstd::arithmetic::div_mod::lemma_fundamental_div_mod(numerator as int, denominator as int);
    let below = (numerator / denominator) as int;
    assert((2 * below + 1) * denominator == 2 * (denominator * below) + denominator)
        by (nonlinear_arith);
    assert((2 * below - 1) * denominator == 2 * (denominator * below) - denominator)
        by (nonlinear_arith);
    assert((2 * (below + 1) + 1) * denominator == 2 * (denominator * below) + 3 * denominator)
        by (nonlinear_arith);
    assert((2 * (below + 1) - 1) * denominator == 2 * (denominator * below) + denominator)
        by (nonlinear_arith);
}

/// A quotient between two integers is rounded to one of them or between them.
proof fn lemma_half_even_between(numerator: nat, denominator: nat, low: nat, high: nat)
    requires
        denominator > 0,
        low * denominator <= numerator < high * denominator,
    ensures
        low <= numerator / denominator < high,
        low <= half_even(numerator, denominator) <= high,
{
    vstd::arithmetic::div_mod::lemma_fundamental_div_mod(numerator as int, denominator as int);
    let below = (numerator / denominator) as int;
    let rest = (numerator % denominator) as int;
    assert(low <= below < high) by (nonlinear_arith)
        requires
            denominator > 0,
            low * denominator <= numerator < high * denominator,
            numerator == denominator * below + rest,
            0 <= rest < denominator,
    ;
}

/// Rounds a quotient to the nearest integer, and to the even one of two.
fn round_half_even(numerator: u128, denominator: u128) -> (nearest: u128)
    requires
        denominator > 0,
        denominator <= 0x8000_0000_0000_0000_0000,
        numerator / denominator < 2 * HIDDEN_BIT,
    ensures
        nearest == half_even(numerator as nat, denominator as nat),
{
    let below: u128 = numerator / denominator;
    let rest: u128 = numerator % denominator;
    if 2 * rest > denominator || (2 * rest == denominator && below % 2 == 1) {
        below + 1
    } else {
        below
    }
}

fn normalize(significand: u128, exponent: i32) -> (number: Binary)
    requires
        HIDDEN_BIT <= significand <= 2 * HIDDEN_BIT,
        -1000 <= exponent <= 1000,
    ensures
        number == normalized(significand as nat, exponent as int),
        number.is_normal(),
        exponent <= number.exponent <= exponent + 1,
{
    if significand == 2 * (HIDDEN_BIT as u128) {
        Binary { significand: HIDDEN_BIT, exponent: exponent + 1 }
    } else {
        Binary { significand: significand as u64, exponent }
    }
}

/// Rounds an integer to binary64.
pub fn round_integer(integer: u128) -> (number: Binary)
    ensures
        number == rounded(integer as nat, 1),
        integer == 0 ==> number == zero(),
        integer > 0 ==> number.is_normal() && -52 <= number.exponent <= 76,
{
    if integer == 0 {
        return Binary { significand: 0, exponent: 0 };
    }
    if integer < HIDDEN_BIT as u128 {
        round_small_integer(integer)
    } else {
        round_large_integer(integer)
    }
}

fn round_small_integer(integer: u128) -> (number: Binary)
    requires
        0 < integer < HIDDEN_BIT,
    ensures
        number == rounded(integer as nat, 1),
        number.is_normal(),
        -52 <= number.exponent <= 76,
{
    let mut significand: u128 = integer;
    let mut exponent: i32 = 0;
    proof {
        lemma2_to64();
        lemma2_to64_rest();
        assert(integer * pow2(0) == integer) by (nonlinear_arith)
            requires
                pow2(0) == 1,
        ;
    }
    while significand < HIDDEN_BIT as u128
        invariant
            0 < integer < HIDDEN_BIT,
            -52 <= exponent <= 0,
            significand == integer * pow2((-exponent) as nat),
            significand < 2 * HIDDEN_BIT,
            pow2(52) == HIDDEN_BIT,
        decreases 2 * HIDDEN_BIT - significand,
    {
        proof {
            lemma_pow2_unfold((1 - exponent) as nat);
            lemma_pow2_pos((-exponent) as nat);
            let power = pow2((-exponent) as nat) as int;
            assert(integer * (2 * power) == 2 * (integer * power)) by (nonlinear_arith);
            assert(integer * power >= power) by (nonlinear_arith)
                requires
                    integer >= 1,
                    power >= 0,
            ;
            assert(integer * power > 0) by (nonlinear_arith)
                requires
                    integer >= 1,
                    power > 0,
            ;
        }
        significand = significand * 2;
        exponent = exponent - 1;
    }
    proof {
        let power = 52 + exponent as int;
        let shift = (-exponent) as nat;
        lemma_pow2_pos(shift);
        lemma_pow2_adds(power as nat, shift);
        lemma_pow2_unfold((power + 1) as nat);
        let number = integer as int;
        let unit = pow2(shift) as int;
        let least = pow2(power as nat) as int;
        assert(number >= least && number < 2 * least) by (nonlinear_arith)
            requires
                number * unit >= least * unit,
                number * unit < 2 * (least * unit),
                unit > 0,
        ;
        assert(has_magnitude(integer as nat, 1, power));
        lemma_rounded(integer as nat, 1, power);
        assert(nearest_multiple(integer as nat, 1, exponent as int) == significand);
    }
    normalize(significand, exponent)
}

fn round_large_integer(integer: u128) -> (number: Binary)
    requires
        integer >= HIDDEN_BIT,
    ensures
        number == rounded(integer as nat, 1),
        number.is_normal(),
        -52 <= number.exponent <= 76,
{
    let mut unit: u128 = 1;
    let mut exponent: i32 = 0;
    proof {
        lemma2_to64();
        lemma2_to64_rest();
        lemma_pow2_adds(64, 11);
    }
    while unit <= integer / 0x20_0000_0000_0000
        invariant
            0 <= exponent <= 75,
            unit == pow2(exponent as nat),
            0 < unit,
            0x10_0000_0000_0000 * unit <= integer,
            pow2(75) == 0x800_0000_0000_0000_0000,
        decreases integer - unit,
    {
        proof {
            lemma_pow2_unfold((exponent + 1) as nat);
        }
        unit = unit * 2;
        exponent = exponent + 1;
    }
    proof {
        let power = 52 + exponent as int;
        lemma_pow2_adds(52, exponent as nat);
        lemma_pow2_adds(53, exponent as nat);
        assert(pow2(52) * pow2(exponent as nat) == 0x10_0000_0000_0000 * unit) by (nonlinear_arith)
            requires
                pow2(52) == 0x10_0000_0000_0000,
                pow2(exponent as nat) == unit,
        ;
        assert(pow2(53) * pow2(exponent as nat) == 0x20_0000_0000_0000 * unit) by (nonlinear_arith)
            requires
                pow2(53) == 0x20_0000_0000_0000,
                pow2(exponent as nat) == unit,
        ;
        assert(has_magnitude(integer as nat, 1, power));
        lemma_rounded(integer as nat, 1, power);
        lemma_half_even_between(
            integer as nat,
            unit as nat,
            HIDDEN_BIT as nat,
            2 * HIDDEN_BIT as nat,
        );
    }
    normalize(round_half_even(integer, unit), exponent)
}

/// Divides two numbers and rounds their quotient.
pub fn divide(dividend: Binary, divisor: Binary) -> (quotient: Binary)
    requires
        dividend == zero() || dividend.is_normal(),
        divisor.is_normal(),
        -100 <= dividend.exponent <= 100,
        -100 <= divisor.exponent <= 100,
    ensures
        quotient == quotient_of(dividend, divisor),
        quotient == zero() || quotient.is_normal(),
        -300 <= quotient.exponent <= 300,
{
    if dividend.significand == 0 {
        return Binary { significand: 0, exponent: 0 };
    }
    let shift: i32 = if dividend.significand >= divisor.significand {
        52
    } else {
        53
    };
    let factor: u128 = if dividend.significand >= divisor.significand {
        HIDDEN_BIT as u128
    } else {
        2 * (HIDDEN_BIT as u128)
    };
    proof {
        let size = dividend.significand as int;
        let times = factor as int;
        assert(0 <= size * times <= 0x20_0000_0000_0000 * 0x20_0000_0000_0000) by (nonlinear_arith)
            requires
                0 <= size <= 0x20_0000_0000_0000,
                0 <= times <= 0x20_0000_0000_0000,
        ;
    }
    let numerator: u128 = dividend.significand as u128 * factor;
    let denominator: u128 = divisor.significand as u128;
    proof {
        lemma2_to64();
        lemma2_to64_rest();
        let power = 52 - shift as int;
        let top = dividend.significand as nat;
        let bottom = divisor.significand as nat;
        assert(bottom * pow2(0) == bottom) by (nonlinear_arith)
            requires
                pow2(0) == 1,
        ;
        assert(bottom * pow2(1) == 2 * bottom) by (nonlinear_arith)
            requires
                pow2(1) == 2,
        ;
        assert(top * pow2(1) == 2 * top) by (nonlinear_arith)
            requires
                pow2(1) == 2,
        ;
        assert(has_magnitude(top, bottom, power));
        lemma_rounded(top, bottom, power);
        assert(nearest_multiple(top, bottom, -shift as int) == half_even(
            numerator as nat,
            denominator as nat,
        ));
        assert(numerator == top * factor);
        assert(HIDDEN_BIT * bottom <= top * factor < 2 * HIDDEN_BIT * bottom) by (nonlinear_arith)
            requires
                HIDDEN_BIT <= top < 2 * HIDDEN_BIT,
                HIDDEN_BIT <= bottom < 2 * HIDDEN_BIT,
                (top >= bottom && factor == HIDDEN_BIT) || (top < bottom && factor == 2
                    * HIDDEN_BIT),
        ;
        lemma_half_even_between(
            numerator as nat,
            denominator as nat,
            HIDDEN_BIT as nat,
            2 * HIDDEN_BIT as nat,
        );
    }
    let quotient = normalize(round_half_even(numerator, denominator), -shift);
    Binary {
        significand: quotient.significand,
        exponent: quotient.exponent + dividend.exponent - divisor.exponent,
    }
}

/// Returns whether two patterns are those of equal numbers.
pub fn equal_numbers(first: u64, second: u64) -> (equal: bool)
    ensures
        equal == same_number(first, second),
{
    if first % SIGN_BIT > INFINITY_BITS || second % SIGN_BIT > INFINITY_BITS {
        return false;
    }
    first == second || (first % SIGN_BIT == 0 && second % SIGN_BIT == 0)
}

/// Returns whether the binary64 quotient of a ratio is at least the binary64
/// number of a pattern.
pub fn reaches_threshold(ratio: Ratio, bits: u64) -> (reached: bool)
    ensures
        reached == reaches(ratio, bits),
{
    if bits % SIGN_BIT > INFINITY_BITS {
        return false;
    }
    if ratio.denominator == 0 {
        return ratio.numerator != 0;
    }
    if bits >= SIGN_BIT {
        return true;
    }
    if bits == INFINITY_BITS {
        return false;
    }
    let value = divide(round_integer(ratio.numerator), round_integer(ratio.denominator));
    let field: u64 = bits / HIDDEN_BIT;
    let mantissa: u64 = bits % HIDDEN_BIT;
    let (significand, exponent): (u64, i32) = if field == 0 {
        (mantissa, -1074)
    } else {
        (HIDDEN_BIT + mantissa, field as i32 - 1075)
    };
    proof {
        lemma_at_least(value, significand, exponent);
    }
    if significand == 0 {
        true
    } else if value.significand == 0 {
        false
    } else {
        value.exponent > exponent || (value.exponent == exponent && value.significand
            >= significand)
    }
}

/// Numbers with significands of equal length are ordered by their exponents
/// first.
proof fn lemma_at_least(value: Binary, significand: u64, exponent: i32)
    requires
        value == zero() || value.is_normal(),
        -300 <= value.exponent <= 300,
        -1074 <= exponent,
        significand < 2 * HIDDEN_BIT,
        exponent > -1074 ==> significand >= HIDDEN_BIT,
    ensures
        at_least(value, significand as nat, exponent as int) <==> {
            ||| significand == 0
            ||| value.significand != 0 && (value.exponent > exponent || (value.exponent == exponent
                && value.significand >= significand))
        },
{
    lemma2_to64();
    let size = value.significand as int;
    let wanted = significand as int;
    if value.exponent > exponent {
        let shift = (value.exponent - exponent) as nat;
        lemma_pow2_unfold(shift);
        lemma_pow2_pos((shift - 1) as nat);
        let power = pow2(shift) as int;
        if size == 0 {
            assert(size * power == 0) by (nonlinear_arith)
                requires
                    size == 0,
            ;
        } else {
            assert(size * power >= 2 * size) by (nonlinear_arith)
                requires
                    size > 0,
                    power >= 2,
            ;
        }
    } else if value.exponent < exponent {
        let shift = (exponent - value.exponent) as nat;
        lemma_pow2_unfold(shift);
        lemma_pow2_pos((shift - 1) as nat);
        let power = pow2(shift) as int;
        assert(wanted * power >= 2 * wanted) by (nonlinear_arith)
            requires
                wanted >= 0,
                power >= 2,
        ;
    } else {
        assert(size * 1 == size);
    }
}

/// A number at least as large as another one is at least as large as what that
/// one is at least as large as.
proof fn lemma_at_least_smaller(
    value: Binary,
    high_significand: nat,
    high_exponent: int,
    low_significand: nat,
    low_exponent: int,
)
    requires
        at_least(value, high_significand, high_exponent),
        low_exponent <= high_exponent,
        low_significand <= high_significand * pow2((high_exponent - low_exponent) as nat),
    ensures
        at_least(value, low_significand, low_exponent),
{
    let size = value.significand as int;
    let at = value.exponent as int;
    let gap = pow2((high_exponent - low_exponent) as nat) as int;
    let high = high_significand as int;
    let low = low_significand as int;
    lemma_pow2_pos((high_exponent - low_exponent) as nat);
    if at >= high_exponent {
        let shift = pow2((at - high_exponent) as nat) as int;
        lemma_pow2_adds((at - high_exponent) as nat, (high_exponent - low_exponent) as nat);
        assert(size * (shift * gap) >= high * gap) by (nonlinear_arith)
            requires
                size * shift >= high,
                gap > 0,
        ;
    } else if at >= low_exponent {
        let rest = pow2((high_exponent - at) as nat) as int;
        let shift = pow2((at - low_exponent) as nat) as int;
        lemma_pow2_pos((at - low_exponent) as nat);
        lemma_pow2_adds((high_exponent - at) as nat, (at - low_exponent) as nat);
        assert(size * shift >= high * (rest * shift)) by (nonlinear_arith)
            requires
                size >= high * rest,
                shift > 0,
        ;
    } else {
        let shift = pow2((low_exponent - at) as nat) as int;
        lemma_pow2_pos((low_exponent - at) as nat);
        lemma_pow2_adds((high_exponent - low_exponent) as nat, (low_exponent - at) as nat);
        assert(high * (gap * shift) >= low * shift) by (nonlinear_arith)
            requires
                high * gap >= low,
                shift > 0,
        ;
    }
}

/// Equal thresholds are reached alike, and only a number equals itself.
pub proof fn law_equal_thresholds_are_reached_alike(ratio: Ratio, first: u64, second: u64)
    ensures
        same_number(first, second) ==> reaches(ratio, first) == reaches(ratio, second),
        same_number(first, second) == same_number(second, first),
        same_number(first, first) == !is_nan(first),
{
    if ratio.denominator != 0 {
        lemma_zero_is_reached(value_of(ratio));
    }
}

/// Every non-negative number is at least zero.
proof fn lemma_zero_is_reached(value: Binary)
    ensures
        at_least(value, 0, exponent_of(0)),
{
    let size = value.significand as int;
    if value.exponent >= -1074 {
        let power = pow2((value.exponent + 1074) as nat) as int;
        assert(size * power >= 0) by (nonlinear_arith)
            requires
                size >= 0,
                power >= 0,
        ;
    } else {
        let power = pow2((-1074 - value.exponent) as nat) as int;
        assert(0 * power == 0);
    }
}

/// Whatever reaches a threshold reaches every lower one: patterns of
/// non-negative numbers are ordered as the numbers are.
pub proof fn law_lower_thresholds_are_reached_too(ratio: Ratio, low: u64, high: u64)
    requires
        low <= high < SIGN_BIT,
        reaches(ratio, high),
    ensures
        reaches(ratio, low),
{
    if ratio.denominator != 0 {
        let gap = (exponent_of(high) - exponent_of(low)) as nat;
        lemma2_to64();
        let wide = significand(high) as int;
        if gap == 0 {
            assert(wide * pow2(0) == wide) by (nonlinear_arith)
                requires
                    pow2(0) == 1,
            ;
        } else {
            lemma_pow2_unfold(gap);
            lemma_pow2_pos((gap - 1) as nat);
            let power = pow2(gap) as int;
            assert(wide * power >= 2 * wide) by (nonlinear_arith)
                requires
                    wide >= 0,
                    power >= 2,
            ;
        }
        lemma_at_least_smaller(
            value_of(ratio),
            significand(high),
            exponent_of(high),
            significand(low),
            exponent_of(low),
        );
    }
}

} // verus!
