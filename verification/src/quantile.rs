//! Nearest-rank quantiles over bucket counters.
//!
//! A quantile is given by the bit pattern of its binary64 value, so that ranks
//! come from the exact binary fraction without any rounding.

use vstd::arithmetic::power2::{
    lemma2_to64, lemma2_to64_rest, lemma_pow2_adds, lemma_pow2_pos, lemma_pow2_strictly_increases, lemma_pow2_unfold,
    pow2,
};
use vstd::prelude::*;

use crate::counts::{sum_checked, total};
use crate::ratio::Ratio;

verus! {

/// Bit pattern of the binary64 value one.
pub const ONE_BITS: u64 = 0x3ff0_0000_0000_0000;

/// Weight of the lowest exponent bit of a binary64 pattern.
pub const HIDDEN_BIT: u64 = 0x10_0000_0000_0000;

/// A selected bucket with the rank that selected it.
#[derive(Clone, Copy, Debug, PartialEq, Eq, Structural)]
pub struct RankSelection {
    /// First bucket whose cumulative count reaches the rank.
    pub bucket: usize,
    /// One-based nearest rank.
    pub rank: u128,
    /// Total number of samples.
    pub samples: u128,
}

/// Which side of the finite buckets a selected bucket lies on.
#[derive(Clone, Copy, Debug, PartialEq, Eq, Structural)]
pub enum TerminalStatus {
    /// The open-ended first bucket.
    Lower,
    /// A bucket between two bounds.
    Finite,
    /// The open-ended last bucket.
    Upper,
}

/// A quantile estimate from bucket counters.
#[derive(Clone, Copy, Debug, PartialEq, Eq, Structural)]
pub struct QuantileEstimate {
    /// Selected bucket and rank.
    pub selection: RankSelection,
    /// Inclusive lower edge, absent in the first bucket.
    pub lower_bound: Option<u64>,
    /// Exclusive upper edge, absent in the last bucket.
    pub upper_bound: Option<u64>,
    /// Representative value of a finite bucket.
    pub value: Option<u64>,
    /// Worst-case relative error of the representative.
    pub max_relative_error: Option<Ratio>,
    /// Which side of the finite buckets was selected.
    pub terminal: TerminalStatus,
}

/// Why no quantile can be estimated.
#[derive(Clone, Copy, Debug, PartialEq, Eq, Structural)]
pub enum QuantileError {
    /// The pattern is not a finite value in `(0, 1]`.
    InvalidQuantile,
    /// The counts do not sum to a `u64`.
    CounterTotalOverflow,
    /// There is not exactly one count more than there are bounds.
    ShapeMismatch,
}

/// Patterns of the binary64 values in `(0, 1]`.
pub open spec fn valid_quantile(bits: u64) -> bool {
    0 < bits <= ONE_BITS
}

/// The exponent field of a non-negative pattern.
pub open spec fn exponent_field(bits: u64) -> nat {
    (bits / HIDDEN_BIT) as nat
}

/// Integer significand of a non-negative pattern.
pub open spec fn significand(bits: u64) -> nat {
    let mantissa = (bits % HIDDEN_BIT) as nat;
    if exponent_field(bits) == 0 {
        mantissa
    } else {
        HIDDEN_BIT as nat + mantissa
    }
}

/// Power of two that the significand is divided by.
pub open spec fn scale(bits: u64) -> nat {
    if exponent_field(bits) == 0 {
        1074
    } else {
        (1075 - exponent_field(bits)) as nat
    }
}

/// The least integer at or above a quotient.
pub open spec fn ceil_div(numerator: nat, denominator: nat) -> nat {
    if numerator % denominator == 0 {
        numerator / denominator
    } else {
        numerator / denominator + 1
    }
}

/// The nearest rank: the quantile times the samples, rounded up.
pub open spec fn rank_of(samples: nat, bits: u64) -> nat {
    ceil_div(samples * significand(bits), pow2(scale(bits)))
}

/// The first bucket whose cumulative count reaches `rank`.
pub open spec fn bucket_at_rank(counts: Seq<u64>, rank: nat) -> nat
    decreases counts.len(),
{
    if counts.len() == 0 {
        0
    } else if total(counts.drop_last()) >= rank {
        bucket_at_rank(counts.drop_last(), rank)
    } else {
        (counts.len() - 1) as nat
    }
}

/// The nearest-rank selection over `counts`.
pub open spec fn nearest(counts: Seq<u64>, bits: u64) -> Result<
    Option<RankSelection>,
    QuantileError,
> {
    if !valid_quantile(bits) {
        Err(QuantileError::InvalidQuantile)
    } else if total(counts) > u64::MAX {
        Err(QuantileError::CounterTotalOverflow)
    } else if total(counts) == 0 {
        Ok(None)
    } else {
        let rank = rank_of(total(counts), bits);
        Ok(
            Some(
                RankSelection {
                    bucket: bucket_at_rank(counts, rank) as usize,
                    rank: rank as u128,
                    samples: total(counts) as u128,
                },
            ),
        )
    }
}

/// The harmonic mean of two bounds, rounded half up.
pub open spec fn harmonic_mean(lower: u64, upper: u64) -> int {
    (4 * (lower * upper) + (lower + upper)) / (2 * (lower + upper))
}

/// The representative of a finite bucket, where it can be computed.
pub open spec fn representative(lower: u64, upper: u64) -> Option<u64> {
    if lower >= upper || 2 * (lower * upper) > u128::MAX {
        None
    } else {
        Some(harmonic_mean(lower, upper) as u64)
    }
}

/// The relative distance from the harmonic mean to either bound.
pub open spec fn edge_error(lower: u64, upper: u64) -> Option<Ratio> {
    if lower >= upper {
        None
    } else {
        Some(
            Ratio { numerator: (upper - lower) as u128, denominator: (upper + lower) as u128 },
        )
    }
}

/// The estimate that a selected bucket gives.
pub open spec fn estimate_of(selection: RankSelection, bounds: Seq<u64>) -> QuantileEstimate {
    let bucket = selection.bucket as int;
    if bucket == 0 {
        QuantileEstimate {
            selection,
            lower_bound: None,
            upper_bound: Some(bounds[0]),
            value: None,
            max_relative_error: None,
            terminal: TerminalStatus::Lower,
        }
    } else if bucket == bounds.len() {
        QuantileEstimate {
            selection,
            lower_bound: Some(bounds.last()),
            upper_bound: None,
            value: None,
            max_relative_error: None,
            terminal: TerminalStatus::Upper,
        }
    } else {
        QuantileEstimate {
            selection,
            lower_bound: Some(bounds[bucket - 1]),
            upper_bound: Some(bounds[bucket]),
            value: representative(bounds[bucket - 1], bounds[bucket]),
            max_relative_error: edge_error(bounds[bucket - 1], bounds[bucket]),
            terminal: TerminalStatus::Finite,
        }
    }
}

/// The quantile estimate over `counts` on the grid of `bounds`.
pub open spec fn estimate(counts: Seq<u64>, bounds: Seq<u64>, bits: u64) -> Result<
    Option<QuantileEstimate>,
    QuantileError,
> {
    if bounds.len() == 0 || counts.len() != bounds.len() + 1 {
        Err(QuantileError::ShapeMismatch)
    } else {
        match nearest(counts, bits) {
            Err(error) => Err(error),
            Ok(None) => Ok(None),
            Ok(Some(selection)) => Ok(Some(estimate_of(selection, bounds))),
        }
    }
}

proof fn lemma_shift_is_power(shift: u128)
    requires
        shift < 128,
    ensures
        (1u128 << shift) == pow2(shift as nat),
    decreases shift,
{
    if shift == 0 {
        lemma2_to64();
        assert(1u128 << 0u128 == 1u128) by (bit_vector);
    } else {
        let below = (shift - 1) as u128;
        lemma_shift_is_power(below);
        lemma_pow2_unfold(shift as nat);
        assert((1u128 << shift) == 2 * (1u128 << below)) by (bit_vector)
            requires
                0 < shift < 128,
                below == shift - 1,
        ;
    }
}

proof fn lemma_ceil_div(numerator: nat, denominator: nat)
    requires
        denominator > 0,
    ensures
        ceil_div(numerator, denominator) * denominator >= numerator,
        numerator > 0 ==> (ceil_div(numerator, denominator) - 1) * denominator < numerator,
        numerator > 0 ==> ceil_div(numerator, denominator) >= 1,
{
    vstd::arithmetic::div_mod::lemma_fundamental_div_mod(numerator as int, denominator as int);
    let quotient = (numerator / denominator) as int;
    assert((quotient + 1) * denominator == quotient * denominator + denominator)
        by (nonlinear_arith);
    assert((quotient - 1) * denominator == quotient * denominator - denominator)
        by (nonlinear_arith);
    assert(denominator * quotient == quotient * denominator) by (nonlinear_arith);
    if numerator > 0 && numerator % denominator == 0 && quotient == 0 {
        assert(denominator * quotient == 0) by (nonlinear_arith)
            requires
                quotient == 0,
        ;
    }
    assert(quotient >= 0) by (nonlinear_arith)
        requires
            quotient == (numerator as int) / (denominator as int),
            denominator > 0,
            numerator >= 0,
    ;
}

/// A quotient rounded up never exceeds an integer that bounds the quotient.
proof fn lemma_ceil_div_bound(numerator: nat, denominator: nat, bound: nat)
    requires
        denominator > 0,
        numerator <= bound * denominator,
    ensures
        ceil_div(numerator, denominator) <= bound,
{
    lemma_ceil_div(numerator, denominator);
    let result = ceil_div(numerator, denominator);
    if numerator == 0 {
        assert(0nat % denominator == 0 && 0nat / denominator == 0) by (nonlinear_arith)
            requires
                denominator > 0,
        ;
    } else if result > bound {
        assert((result - 1) * denominator >= bound * denominator) by (nonlinear_arith)
            requires
                result - 1 >= bound,
                denominator > 0,
        ;
    }
}

proof fn lemma_fraction_bounds(bits: u64)
    requires
        valid_quantile(bits),
    ensures
        0 < significand(bits) < 2 * HIDDEN_BIT,
        52 <= scale(bits) <= 1074,
        significand(bits) <= pow2(scale(bits)),
{
    lemma2_to64_rest();
    assert(pow2(53) == 2 * HIDDEN_BIT);
    assert(bits / HIDDEN_BIT <= 1023);
    if scale(bits) > 53 {
        lemma_pow2_strictly_increases(53, scale(bits));
    }
}

/// A rank lies between one and the number of samples.
pub proof fn law_rank_is_within_the_samples(samples: nat, bits: u64)
    requires
        valid_quantile(bits),
        samples > 0,
    ensures
        1 <= rank_of(samples, bits) <= samples,
{
    lemma_fraction_bounds(bits);
    lemma_pow2_pos(scale(bits));
    let product = samples * significand(bits);
    assert(product > 0) by (nonlinear_arith)
        requires
            samples > 0,
            significand(bits) > 0,
            product == samples * significand(bits),
    ;
    lemma_ceil_div(product, pow2(scale(bits)));
    assert(product <= samples * pow2(scale(bits))) by (nonlinear_arith)
        requires
            significand(bits) <= pow2(scale(bits)),
            product == samples * significand(bits),
    ;
    lemma_ceil_div_bound(product, pow2(scale(bits)), samples);
}

/// A valid quantile as a multiple of the smallest positive binary64 value.
pub open spec fn magnitude(bits: u64) -> nat {
    significand(bits) * pow2((1074 - scale(bits)) as nat)
}

/// Larger patterns stand for larger quantiles.
pub proof fn law_patterns_order_quantiles(low: u64, high: u64)
    requires
        valid_quantile(low),
        valid_quantile(high),
        low <= high,
    ensures
        magnitude(low) <= magnitude(high),
{
    lemma_fraction_bounds(low);
    lemma_fraction_bounds(high);
    let low_power = (1074 - scale(low)) as nat;
    let high_power = (1074 - scale(high)) as nat;
    lemma_pow2_pos(low_power);
    assert(low / HIDDEN_BIT <= high / HIDDEN_BIT);
    if low_power == high_power {
        assert(significand(low) <= significand(high));
        assert(magnitude(low) <= magnitude(high)) by (nonlinear_arith)
            requires
                significand(low) <= significand(high),
                magnitude(low) == significand(low) * pow2(low_power),
                magnitude(high) == significand(high) * pow2(low_power),
        ;
    } else {
        lemma_pow2_unfold(low_power + 1);
        if low_power + 1 < high_power {
            lemma_pow2_strictly_increases(low_power + 1, high_power);
        }
        assert(magnitude(low) <= magnitude(high)) by (nonlinear_arith)
            requires
                significand(low) < 2 * HIDDEN_BIT,
                significand(high) >= HIDDEN_BIT,
                2 * pow2(low_power) <= pow2(high_power),
                magnitude(low) == significand(low) * pow2(low_power),
                magnitude(high) == significand(high) * pow2(high_power),
        ;
    }
}

/// Any common scale gives the same rank.
proof fn lemma_rank_from_magnitude(samples: nat, bits: u64)
    requires
        valid_quantile(bits),
        samples > 0,
    ensures
        rank_of(samples, bits) == ceil_div(samples * magnitude(bits), pow2(1074)),
{
    lemma_fraction_bounds(bits);
    let denominator = pow2(scale(bits));
    let rest = pow2((1074 - scale(bits)) as nat);
    lemma_pow2_adds(scale(bits), (1074 - scale(bits)) as nat);
    lemma_pow2_pos(scale(bits));
    lemma_pow2_pos((1074 - scale(bits)) as nat);
    lemma_pow2_pos(1074);
    let product = samples * significand(bits);
    let wide = samples * magnitude(bits);
    let rank = ceil_div(product, denominator);
    assert(wide == product * rest) by (nonlinear_arith)
        requires
            wide == samples * (significand(bits) * rest),
            product == samples * significand(bits),
    ;
    assert(product > 0) by (nonlinear_arith)
        requires
            samples > 0,
            significand(bits) > 0,
            product == samples * significand(bits),
    ;
    assert(wide > 0) by (nonlinear_arith)
        requires
            wide == product * rest,
            product > 0,
            rest > 0,
    ;
    lemma_ceil_div(product, denominator);
    lemma_ceil_div(wide, pow2(1074));
    let other = ceil_div(wide, pow2(1074));
    assert(wide <= rank * pow2(1074)) by (nonlinear_arith)
        requires
            wide == product * rest,
            product <= rank * denominator,
            pow2(1074) == denominator * rest,
    ;
    lemma_ceil_div_bound(wide, pow2(1074), rank);
    assert(product <= other * denominator) by (nonlinear_arith)
        requires
            product * rest <= other * (denominator * rest),
            rest > 0,
    ;
    lemma_ceil_div_bound(product, denominator, other);
}

/// A larger quantile never has a smaller rank.
pub proof fn law_rank_is_monotone(samples: nat, low: u64, high: u64)
    requires
        valid_quantile(low),
        valid_quantile(high),
        low <= high,
        samples > 0,
    ensures
        rank_of(samples, low) <= rank_of(samples, high),
{
    law_patterns_order_quantiles(low, high);
    lemma_rank_from_magnitude(samples, low);
    lemma_rank_from_magnitude(samples, high);
    lemma_pow2_pos(1074);
    let wide = samples * magnitude(high);
    lemma_ceil_div(wide, pow2(1074));
    assert(samples * magnitude(low) <= wide) by (nonlinear_arith)
        requires
            magnitude(low) <= magnitude(high),
            wide == samples * magnitude(high),
    ;
    lemma_ceil_div_bound(samples * magnitude(low), pow2(1074), ceil_div(wide, pow2(1074)));
}

/// The selected bucket is the first whose cumulative count reaches the rank.
pub proof fn law_selected_bucket_is_the_first(counts: Seq<u64>, rank: nat)
    requires
        1 <= rank <= total(counts),
    ensures
        bucket_at_rank(counts, rank) < counts.len(),
        total(counts.take(bucket_at_rank(counts, rank) as int)) < rank,
        rank <= total(counts.take(bucket_at_rank(counts, rank) as int + 1)),
    decreases counts.len(),
{
    let rest = counts.drop_last();
    if total(rest) >= rank {
        law_selected_bucket_is_the_first(rest, rank);
        let bucket = bucket_at_rank(rest, rank) as int;
        assert(rest.take(bucket) =~= counts.take(bucket));
        assert(rest.take(bucket + 1) =~= counts.take(bucket + 1));
    } else {
        assert(counts.take(counts.len() - 1) =~= rest);
        assert(counts.take(counts.len() as int) =~= counts);
    }
}

/// A bucket with the cumulative counts of a rank around it is the selected one.
proof fn lemma_selected_bucket_unique(counts: Seq<u64>, rank: nat, bucket: int)
    requires
        0 <= bucket < counts.len(),
        total(counts.take(bucket)) < rank,
        rank <= total(counts.take(bucket + 1)),
    ensures
        bucket_at_rank(counts, rank) == bucket,
    decreases counts.len(),
{
    let rest = counts.drop_last();
    if bucket == counts.len() - 1 {
        assert(counts.take(bucket) =~= rest);
    } else {
        crate::counts::lemma_total_prefix_monotone(counts, bucket + 1, counts.len() - 1);
        assert(counts.take(counts.len() - 1) =~= rest);
        assert(rest.take(bucket) =~= counts.take(bucket));
        assert(rest.take(bucket + 1) =~= counts.take(bucket + 1));
        lemma_selected_bucket_unique(rest, rank, bucket);
    }
}

/// A larger quantile of the same counts never selects an earlier bucket.
pub proof fn law_selection_is_monotone(counts: Seq<u64>, low: u64, high: u64)
    requires
        valid_quantile(low),
        valid_quantile(high),
        low <= high,
        0 < total(counts),
    ensures
        bucket_at_rank(counts, rank_of(total(counts), low)) <= bucket_at_rank(
            counts,
            rank_of(total(counts), high),
        ),
{
    let low_rank = rank_of(total(counts), low);
    let high_rank = rank_of(total(counts), high);
    law_rank_is_within_the_samples(total(counts), low);
    law_rank_is_within_the_samples(total(counts), high);
    law_rank_is_monotone(total(counts), low, high);
    law_selected_bucket_is_the_first(counts, low_rank);
    law_selected_bucket_is_the_first(counts, high_rank);
    let low_bucket = bucket_at_rank(counts, low_rank) as int;
    let high_bucket = bucket_at_rank(counts, high_rank) as int;
    if high_bucket < low_bucket {
        crate::counts::lemma_total_prefix_monotone(counts, high_bucket + 1, low_bucket);
    }
}

/// A representative lies inside its bucket.
pub proof fn law_representative_lies_in_its_bucket(lower: u64, upper: u64)
    requires
        lower < upper,
    ensures
        lower <= harmonic_mean(lower, upper) < upper,
{
    let low = lower as int;
    let high = upper as int;
    let sum = low + high;
    assert(4 * low * high + sum >= low * (2 * sum)) by (nonlinear_arith)
        requires
            0 <= low < high,
            sum == low + high,
    ;
    assert(4 * low * high + sum < high * (2 * sum)) by (nonlinear_arith)
        requires
            0 <= low < high,
            sum == low + high,
    ;
    assert(4 * (lower * upper) == 4 * low * high) by (nonlinear_arith)
        requires
            low == lower,
            high == upper,
    ;
    let value = (4 * low * high + sum) / (2 * sum);
    assert(low <= value < high) by (nonlinear_arith)
        requires
            value == (4 * low * high + sum) / (2 * sum),
            4 * low * high + sum >= low * (2 * sum),
            4 * low * high + sum < high * (2 * sum),
            sum > 0,
    ;
}

/// The exact harmonic mean `2lu / (l + u)` has the same relative distance
/// `(u - l) / (u + l)` to both bounds: here cross-multiplied by `l + u`.
pub proof fn law_harmonic_mean_balances_the_edges(lower: int, upper: int)
    requires
        0 <= lower < upper,
    ensures
        2 * lower * upper - lower * (lower + upper) == lower * (upper - lower),
        upper * (lower + upper) - 2 * lower * upper == upper * (upper - lower),
{
    assert(2 * lower * upper - lower * (lower + upper) == lower * (upper - lower))
        by (nonlinear_arith);
    assert(upper * (lower + upper) - 2 * lower * upper == upper * (upper - lower))
        by (nonlinear_arith);
}

/// Tells whether a pattern stands for a value in `(0, 1]`.
pub fn is_valid_quantile(bits: u64) -> (valid: bool)
    ensures
        valid == valid_quantile(bits),
{
    0 < bits && bits <= ONE_BITS
}

/// Computes the nearest rank from the exact binary value of the quantile,
/// avoiding rounding at rank boundaries.
pub fn quantile_rank(samples: u64, bits: u64) -> (rank: u128)
    requires
        valid_quantile(bits),
        samples > 0,
    ensures
        rank == rank_of(samples as nat, bits),
        1 <= rank <= samples,
{
    let exponent: u64 = bits / HIDDEN_BIT;
    let mantissa: u64 = bits % HIDDEN_BIT;
    proof {
        lemma_fraction_bounds(bits);
        law_rank_is_within_the_samples(samples as nat, bits);
        assert(bits / HIDDEN_BIT <= 1023);
    }
    let numerator: u64 = if exponent == 0 {
        mantissa
    } else {
        HIDDEN_BIT + mantissa
    };
    let shift: u128 = if exponent == 0 {
        1074
    } else {
        (1075 - exponent) as u128
    };
    assert(samples * numerator < 0x1_0000_0000_0000_0000 * 0x20_0000_0000_0000)
        by (nonlinear_arith)
        requires
            samples < 0x1_0000_0000_0000_0000,
            numerator < 0x20_0000_0000_0000,
    ;
    let product: u128 = (samples as u128) * (numerator as u128);
    if shift >= 128 {
        proof {
            lemma_shift_is_power(127);
            assert((1u128 << 127u128) == 0x8000_0000_0000_0000_0000_0000_0000_0000u128)
                by (bit_vector);
            lemma_pow2_strictly_increases(127, scale(bits));
            lemma_ceil_div_bound(product as nat, pow2(scale(bits)), 1);
        }
        return 1;
    }
    let denominator: u128 = 1u128 << shift;
    proof {
        lemma_shift_is_power(shift);
        lemma_pow2_pos(shift as nat);
    }
    let quotient: u128 = product / denominator;
    if product % denominator != 0 {
        quotient + 1
    } else {
        quotient
    }
}

/// Selects the bucket that holds the nearest rank of a quantile.
pub fn nearest_rank(counts: &[u64], bits: u64) -> (result: Result<
    Option<RankSelection>,
    QuantileError,
>)
    ensures
        result == nearest(counts@, bits),
{
    if !is_valid_quantile(bits) {
        return Err(QuantileError::InvalidQuantile);
    }
    let samples: u64 = match sum_checked(counts) {
        Some(samples) => samples,
        None => {
            return Err(QuantileError::CounterTotalOverflow);
        },
    };
    if samples == 0 {
        return Ok(None);
    }
    let rank: u128 = quantile_rank(samples, bits);
    let mut cumulative: u128 = 0;
    let mut bucket: usize = 0;
    assert(counts@.take(0) =~= Seq::<u64>::empty());
    while bucket < counts.len()
        invariant
            bucket <= counts@.len(),
            cumulative == total(counts@.take(bucket as int)),
            cumulative < rank <= samples,
            samples == total(counts@),
            samples > 0,
            valid_quantile(bits),
            rank == rank_of(samples as nat, bits),
        decreases counts@.len() - bucket,
    {
        proof {
            crate::counts::lemma_total_step(counts@, bucket as int);
        }
        cumulative = cumulative + counts[bucket] as u128;
        if cumulative >= rank {
            proof {
                lemma_selected_bucket_unique(counts@, rank as nat, bucket as int);
            }
            return Ok(Some(RankSelection { bucket, rank, samples: samples as u128 }));
        }
        bucket = bucket + 1;
    }
    proof {
        assert(counts@.take(counts@.len() as int) =~= counts@);
        assert(false);
    }
    Ok(None)
}

/// Estimates a quantile from bucket counts, one more than there are bounds.
pub fn estimate_quantile(counts: &[u64], bounds: &[u64], bits: u64) -> (result: Result<
    Option<QuantileEstimate>,
    QuantileError,
>)
    ensures
        result == estimate(counts@, bounds@, bits),
{
    if bounds.len() == 0 || counts.len() == 0 || counts.len() - 1 != bounds.len() {
        return Err(QuantileError::ShapeMismatch);
    }
    let selection = match nearest_rank(counts, bits) {
        Err(error) => {
            return Err(error);
        },
        Ok(None) => {
            return Ok(None);
        },
        Ok(Some(selection)) => selection,
    };
    proof {
        law_rank_is_within_the_samples(total(counts@), bits);
        law_selected_bucket_is_the_first(counts@, rank_of(total(counts@), bits));
    }
    let bucket: usize = selection.bucket;
    if bucket == 0 {
        return Ok(
            Some(
                QuantileEstimate {
                    selection,
                    lower_bound: None,
                    upper_bound: Some(bounds[0]),
                    value: None,
                    max_relative_error: None,
                    terminal: TerminalStatus::Lower,
                },
            ),
        );
    }
    if bucket == bounds.len() {
        return Ok(
            Some(
                QuantileEstimate {
                    selection,
                    lower_bound: Some(bounds[bounds.len() - 1]),
                    upper_bound: None,
                    value: None,
                    max_relative_error: None,
                    terminal: TerminalStatus::Upper,
                },
            ),
        );
    }
    let lower: u64 = bounds[bucket - 1];
    let upper: u64 = bounds[bucket];
    Ok(
        Some(
            QuantileEstimate {
                selection,
                lower_bound: Some(lower),
                upper_bound: Some(upper),
                value: finite_representative(lower, upper),
                max_relative_error: relative_error(lower, upper),
                terminal: TerminalStatus::Finite,
            },
        ),
    )
}

/// Returns the representative of a finite bucket.
///
/// The harmonic mean equalizes worst-case relative error at both bucket edges.
pub fn finite_representative(lower: u64, upper: u64) -> (value: Option<u64>)
    ensures
        value == representative(lower, upper),
        value matches Some(v) ==> lower <= v < upper,
{
    if lower >= upper {
        return None;
    }
    assert(lower * upper <= u64::MAX * u64::MAX) by (nonlinear_arith)
        requires
            lower <= u64::MAX,
            upper <= u64::MAX,
    ;
    let product: u128 = (lower as u128) * (upper as u128);
    if product > u128::MAX / 2 {
        return None;
    }
    let numerator: u128 = product * 2;
    let denominator: u128 = lower as u128 + upper as u128;
    let quotient: u128 = numerator / denominator;
    let remainder: u128 = numerator % denominator;
    proof {
        law_representative_lies_in_its_bucket(lower, upper);
        lemma_half_up(numerator as int, denominator as int);
    }
    let rounded: u128 = if remainder >= denominator - denominator / 2 {
        quotient + 1
    } else {
        quotient
    };
    Some(rounded as u64)
}

/// Rounding half up by doubling agrees with comparing the remainder to a half.
proof fn lemma_half_up(numerator: int, denominator: int)
    requires
        0 <= numerator,
        0 < denominator,
    ensures
        (2 * numerator + denominator) / (2 * denominator) == numerator / denominator + (if 2 * (
        numerator % denominator) >= denominator {
            1int
        } else {
            0int
        }),
{
    let quotient = numerator / denominator;
    let remainder = numerator % denominator;
    vstd::arithmetic::div_mod::lemma_fundamental_div_mod(numerator, denominator);
    let twice = 2 * denominator;
    if 2 * remainder >= denominator {
        assert(2 * numerator + denominator == (quotient + 1) * twice + (2 * remainder
            - denominator)) by (nonlinear_arith)
            requires
                numerator == denominator * quotient + remainder,
                twice == 2 * denominator,
        ;
        vstd::arithmetic::div_mod::lemma_fundamental_div_mod_converse(
            2 * numerator + denominator,
            twice,
            quotient + 1,
            2 * remainder - denominator,
        );
    } else {
        assert(2 * numerator + denominator == quotient * twice + (2 * remainder + denominator))
            by (nonlinear_arith)
            requires
                numerator == denominator * quotient + remainder,
                twice == 2 * denominator,
        ;
        vstd::arithmetic::div_mod::lemma_fundamental_div_mod_converse(
            2 * numerator + denominator,
            twice,
            quotient,
            2 * remainder + denominator,
        );
    }
}

/// Returns the relative error of a finite bucket's harmonic mean at its edges.
pub fn relative_error(lower: u64, upper: u64) -> (error: Option<Ratio>)
    ensures
        error == edge_error(lower, upper),
{
    if lower >= upper {
        return None;
    }
    Some(
        Ratio {
            numerator: (upper - lower) as u128,
            denominator: upper as u128 + lower as u128,
        },
    )
}

} // verus!
