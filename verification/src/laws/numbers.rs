//! What ranks, estimates and representatives mean as numbers.

use vstd::arithmetic::div_mod::lemma_fundamental_div_mod;
use vstd::arithmetic::power2::{lemma_pow2_pos, pow2};
use vstd::prelude::*;

use crate::calibration::{calibration_estimate, CalibrationTerminal};
use crate::counts::{total, total_where};
use crate::quantile::{
    edge_error, estimate, harmonic_mean, law_rank_is_within_the_samples,
    law_selected_bucket_is_the_first, nearest, rank_of, representative, scale, significand,
    valid_quantile, QuantileError, QuantileEstimate, RankSelection, TerminalStatus,
};
use crate::ratio::Ratio;

verus! {

/// A rank is the least whole number of samples that covers a quantile of them:
/// the quantile of `n` samples is `n` times its significand over a power of two.
pub open spec fn covers(rank: int, samples: nat, bits: u64) -> bool {
    &&& rank * pow2(scale(bits)) >= samples * significand(bits)
    &&& (rank - 1) * pow2(scale(bits)) < samples * significand(bits)
}

/// The nearest rank is the least one that covers the quantile.
pub proof fn law_rank_covers_the_quantile(samples: nat, bits: u64)
    requires
        valid_quantile(bits),
        samples > 0,
    ensures
        covers(rank_of(samples, bits) as int, samples, bits),
        1 <= rank_of(samples, bits) <= samples,
{
    law_rank_is_within_the_samples(samples, bits);
    lemma_pow2_pos(scale(bits));
    let whole = (samples * significand(bits)) as int;
    let unit = pow2(scale(bits)) as int;
    lemma_fundamental_div_mod(whole, unit);
    let below = whole / unit;
    assert((below + 1) * unit == unit * below + unit) by (nonlinear_arith);
    assert((below - 1) * unit == unit * below - unit) by (nonlinear_arith);
    assert(below * unit == unit * below) by (nonlinear_arith);
}

/// A pattern is made of the significand and the power of two that it is read
/// as: the exponent field counts powers of two from the least one up, and the
/// significand without its leading bit stands below it.
pub proof fn law_patterns_are_read_as_they_are_written(bits: u64)
    requires
        valid_quantile(bits),
    ensures
        bits < 0x10_0000_0000_0000 ==> significand(bits) == bits && scale(bits) == 1074,
        bits >= 0x10_0000_0000_0000 ==> bits == (1075 - scale(bits)) * 0x10_0000_0000_0000
            + significand(bits) - 0x10_0000_0000_0000 && 0x10_0000_0000_0000 <= significand(bits)
            < 0x20_0000_0000_0000 && scale(bits) <= 1074,
{
}

/// A selection over counts: its rank covers the quantile of all of them, and its
/// bucket is the first one up to which the counts reach that rank.
pub open spec fn selects(selection: RankSelection, counts: Seq<u64>, bits: u64) -> bool {
    let bucket = selection.bucket as int;
    &&& selection.samples == total(counts)
    &&& covers(selection.rank as int, total(counts), bits)
    &&& bucket < counts.len()
    &&& total(counts.take(bucket)) < selection.rank
    &&& selection.rank <= total(counts.take(bucket + 1))
}

/// Nearest ranks select, there is one exactly for a positive sum that fits, and
/// each error comes for its reason.
pub proof fn law_nearest_ranks_select(counts: Seq<u64>, bits: u64)
    requires
        counts.len() <= usize::MAX,
    ensures
        match nearest(counts, bits) {
            Ok(Some(selection)) => valid_quantile(bits) && 0 < total(counts) <= u64::MAX
                && selects(selection, counts, bits),
            Ok(None) => valid_quantile(bits) && total(counts) == 0,
            Err(QuantileError::InvalidQuantile) => !valid_quantile(bits),
            Err(QuantileError::CounterTotalOverflow) => valid_quantile(bits) && total(counts)
                > u64::MAX,
            Err(QuantileError::ShapeMismatch) => false,
        },
{
    if valid_quantile(bits) && 0 < total(counts) <= u64::MAX {
        law_rank_covers_the_quantile(total(counts), bits);
        law_selected_bucket_is_the_first(counts, rank_of(total(counts), bits));
    }
}

/// An integer is nearest to the harmonic mean of two bounds, and the larger of
/// two nearest ones: twice the product over the sum lies within one half of it.
pub open spec fn nearest_harmonic_mean(value: int, lower: int, upper: int) -> bool {
    &&& 2 * (value * (lower + upper)) <= 4 * (lower * upper) + (lower + upper)
    &&& 4 * (lower * upper) < 2 * (value * (lower + upper)) + (lower + upper)
}

/// The representative of a bucket is the nearest integer to the harmonic mean of
/// its bounds.
pub proof fn law_representatives_are_harmonic_means(lower: u64, upper: u64)
    requires
        lower < upper,
    ensures
        nearest_harmonic_mean(harmonic_mean(lower, upper), lower as int, upper as int),
{
    let low = lower as int;
    let high = upper as int;
    let sum = low + high;
    let top = 4 * (lower * upper) + (lower + upper);
    lemma_fundamental_div_mod(top, 2 * sum);
    let value = top / (2 * sum);
    assert(2 * (value * sum) == (2 * sum) * value) by (nonlinear_arith);
    assert(0 <= top % (2 * sum) < 2 * sum) by (nonlinear_arith)
        requires
            sum > 0,
    ;
    assert(lower * upper == low * high) by (nonlinear_arith)
        requires
            low == lower,
            high == upper,
    ;
}

/// The error of a bucket is the relative distance from the harmonic mean of its
/// bounds to either bound: with the mean as twice the product over the sum, both
/// distances are the reported ratio of their bound.
pub proof fn law_errors_are_relative_distances(lower: u64, upper: u64)
    requires
        lower < upper,
    ensures
        edge_error(lower, upper) is Some,
        ({
            let error = edge_error(lower, upper)->0;
            let low = lower as int;
            let high = upper as int;
            let mean = 2 * (low * high);
            let sum = low + high;
            &&& error.denominator > 0
            &&& (mean - low * sum) * error.denominator == (low * sum) * error.numerator
            &&& (high * sum - mean) * error.denominator == (high * sum) * error.numerator
        }),
{
    let low = lower as int;
    let high = upper as int;
    let sum = low + high;
    let gap = high - low;
    assert((2 * (low * high) - low * sum) * sum == (low * sum) * gap) by (nonlinear_arith)
        requires
            sum == low + high,
            gap == high - low,
    ;
    assert((high * sum - 2 * (low * high)) * sum == (high * sum) * gap) by (nonlinear_arith)
        requires
            sum == low + high,
            gap == high - low,
    ;
}

/// An estimate describes the selected bucket: its bounds are the edges of that
/// bucket on the grid, it is terminal exactly without one of them, and a finite
/// bucket whose bounds can be multiplied has the harmonic mean of the bounds as
/// its value and the distance to them as its error.
pub open spec fn describes(found: QuantileEstimate, counts: Seq<u64>, bounds: Seq<u64>, bits: u64) -> bool {
    let bucket = found.selection.bucket as int;
    &&& selects(found.selection, counts, bits)
    &&& found.lower_bound == (if bucket == 0 {
        None
    } else {
        Some(bounds[bucket - 1])
    })
    &&& found.upper_bound == (if bucket == bounds.len() {
        None
    } else {
        Some(bounds[bucket])
    })
    &&& found.terminal == TerminalStatus::Lower <==> bucket == 0
    &&& found.terminal == TerminalStatus::Upper <==> bucket == bounds.len()
    &&& (bucket == 0 || bucket == bounds.len()) ==> found.value is None
        && found.max_relative_error is None
    &&& 0 < bucket < bounds.len() && bounds[bucket - 1] < bounds[bucket] ==> {
        let lower = bounds[bucket - 1] as int;
        let upper = bounds[bucket] as int;
        &&& found.value is Some <==> 2 * (lower * upper) <= u128::MAX
        &&& found.value matches Some(value) ==> nearest_harmonic_mean(value as int, lower, upper)
            && lower <= value < upper
        &&& found.max_relative_error == Some(
            Ratio { numerator: (upper - lower) as u128, denominator: (upper + lower) as u128 },
        )
    }
}

/// Estimates describe the bucket of the quantile, and there is one exactly for a
/// positive sum that fits.
pub proof fn law_estimates_describe_the_selected_bucket(
    counts: Seq<u64>,
    bounds: Seq<u64>,
    bits: u64,
)
    requires
        bounds.len() > 0,
        counts.len() == bounds.len() + 1,
        counts.len() <= usize::MAX,
    ensures
        match estimate(counts, bounds, bits) {
            Ok(Some(found)) => valid_quantile(bits) && 0 < total(counts) <= u64::MAX && describes(
                found,
                counts,
                bounds,
                bits,
            ),
            Ok(None) => valid_quantile(bits) && total(counts) == 0,
            Err(_) => !valid_quantile(bits) || total(counts) > u64::MAX,
        },
{
    law_nearest_ranks_select(counts, bits);
    if let Ok(Some(found)) = estimate(counts, bounds, bits) {
        let bucket = found.selection.bucket as int;
        if 0 < bucket < bounds.len() && bounds[bucket - 1] < bounds[bucket] {
            let lower = bounds[bucket - 1];
            let upper = bounds[bucket];
            law_representatives_are_harmonic_means(lower, upper);
            crate::quantile::law_representative_lies_in_its_bucket(lower, upper);
        }
    }
}

/// A calibration estimate says of a bucket what the estimate says that it is
/// made from.
pub proof fn law_calibration_estimates_keep_every_field(found: QuantileEstimate)
    ensures
        ({
            let kept = calibration_estimate(found);
            &&& kept.rank == found.selection.rank
            &&& kept.samples == found.selection.samples
            &&& kept.lower_bound == found.lower_bound
            &&& kept.upper_bound == found.upper_bound
            &&& kept.value == found.value
            &&& kept.max_relative_error == found.max_relative_error
            &&& kept.terminal == CalibrationTerminal::Lower <==> found.terminal
                == TerminalStatus::Lower
            &&& kept.terminal == CalibrationTerminal::Finite <==> found.terminal
                == TerminalStatus::Finite
            &&& kept.terminal == CalibrationTerminal::Upper <==> found.terminal
                == TerminalStatus::Upper
        }),
{
}

/// Sums add every counter once, and filtered sums every kept one.
pub proof fn law_sums_add_every_counter(counts: Seq<u64>, keep: spec_fn(int) -> bool)
    ensures
        total(counts) == counts.fold_left(0int, |sum: int, count: u64| sum + count),
        total_where(counts, keep) == total(
            Seq::new(
                counts.len(),
                |i: int|
                    if keep(i) {
                        counts[i]
                    } else {
                        0
                    },
            ),
        ),
    decreases counts.len(),
{
    let kept = Seq::new(
        counts.len(),
        |i: int|
            if keep(i) {
                counts[i]
            } else {
                0
            },
    );
    if counts.len() > 0 {
        let rest = counts.drop_last();
        law_sums_add_every_counter(rest, keep);
        assert(kept.drop_last() =~= Seq::new(
            rest.len(),
            |i: int|
                if keep(i) {
                    rest[i]
                } else {
                    0
                },
        ));
    }
}

} // verus!
