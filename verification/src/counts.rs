//! Sums over counter sequences.

use vstd::prelude::*;

verus! {

/// The sum of a sequence of counters.
pub open spec fn total(counts: Seq<u64>) -> nat
    decreases counts.len(),
{
    if counts.len() == 0 {
        0
    } else {
        total(counts.drop_last()) + counts.last() as nat
    }
}

/// The sum of the counters whose index satisfies `keep`.
pub open spec fn total_where(counts: Seq<u64>, keep: spec_fn(int) -> bool) -> nat
    decreases counts.len(),
{
    if counts.len() == 0 {
        0
    } else {
        let rest = total_where(counts.drop_last(), keep);
        if keep(counts.len() - 1) {
            rest + counts.last() as nat
        } else {
            rest
        }
    }
}

/// One more counter adds its value to the sum of a prefix.
pub proof fn lemma_total_step(counts: Seq<u64>, at: int)
    requires
        0 <= at < counts.len(),
    ensures
        total(counts.take(at + 1)) == total(counts.take(at)) + counts[at],
{
    assert(counts.take(at + 1).drop_last() =~= counts.take(at));
}

/// One more counter adds its value to a filtered prefix sum when its index is kept.
pub proof fn lemma_total_where_step(counts: Seq<u64>, keep: spec_fn(int) -> bool, at: int)
    requires
        0 <= at < counts.len(),
    ensures
        total_where(counts.take(at + 1), keep) == total_where(counts.take(at), keep) + (if keep(at) {
            counts[at] as nat
        } else {
            0
        }),
{
    assert(counts.take(at + 1).drop_last() =~= counts.take(at));
}

/// Prefix sums never decrease.
pub proof fn lemma_total_prefix_monotone(counts: Seq<u64>, low: int, high: int)
    requires
        0 <= low <= high <= counts.len(),
    ensures
        total(counts.take(low)) <= total(counts.take(high)),
    decreases high - low,
{
    if low < high {
        lemma_total_prefix_monotone(counts, low, high - 1);
        lemma_total_step(counts, high - 1);
    }
}

/// Filtered prefix sums never decrease.
pub proof fn lemma_total_where_prefix_monotone(
    counts: Seq<u64>,
    keep: spec_fn(int) -> bool,
    low: int,
    high: int,
)
    requires
        0 <= low <= high <= counts.len(),
    ensures
        total_where(counts.take(low), keep) <= total_where(counts.take(high), keep),
    decreases high - low,
{
    if low < high {
        lemma_total_where_prefix_monotone(counts, keep, low, high - 1);
        lemma_total_where_step(counts, keep, high - 1);
    }
}

/// A sum is bounded by its length times the largest counter value.
pub proof fn lemma_total_bound(counts: Seq<u64>)
    ensures
        total(counts) <= counts.len() * u64::MAX,
    decreases counts.len(),
{
    if counts.len() > 0 {
        lemma_total_bound(counts.drop_last());
        assert((counts.len() - 1) * u64::MAX + u64::MAX == counts.len() * u64::MAX)
            by (nonlinear_arith);
    }
}

/// A filtered sum never exceeds the whole sum, and equals it when everything is kept.
pub proof fn lemma_total_where_le_total(counts: Seq<u64>, keep: spec_fn(int) -> bool)
    ensures
        total_where(counts, keep) <= total(counts),
        (forall|i: int| 0 <= i < counts.len() ==> #[trigger] keep(i)) ==> total_where(counts, keep)
            == total(counts),
    decreases counts.len(),
{
    if counts.len() > 0 {
        lemma_total_where_le_total(counts.drop_last(), keep);
    }
}

/// Splitting the kept indices into two disjoint parts splits the filtered sum.
pub proof fn lemma_total_where_split(
    counts: Seq<u64>,
    whole: spec_fn(int) -> bool,
    left: spec_fn(int) -> bool,
    right: spec_fn(int) -> bool,
)
    requires
        forall|i: int|
            0 <= i < counts.len() ==> #[trigger] whole(i) == (left(i) || right(i)) && !(left(i)
                && right(i)),
    ensures
        total_where(counts, whole) == total_where(counts, left) + total_where(counts, right),
    decreases counts.len(),
{
    if counts.len() > 0 {
        lemma_total_where_split(counts.drop_last(), whole, left, right);
        assert(whole(counts.len() - 1) == (left(counts.len() - 1) || right(counts.len() - 1)));
    }
}

/// Predicates that agree on every index give the same filtered sum.
pub proof fn lemma_total_where_ext(
    counts: Seq<u64>,
    left: spec_fn(int) -> bool,
    right: spec_fn(int) -> bool,
)
    requires
        forall|i: int| 0 <= i < counts.len() ==> #[trigger] left(i) == right(i),
    ensures
        total_where(counts, left) == total_where(counts, right),
    decreases counts.len(),
{
    if counts.len() > 0 {
        lemma_total_where_ext(counts.drop_last(), left, right);
        assert(left(counts.len() - 1) == right(counts.len() - 1));
    }
}

/// Sums `counts` without `u64` overflow.
pub fn sum(counts: &[u64]) -> (result: u128)
    ensures
        result == total(counts@),
{
    let mut result: u128 = 0;
    let mut index: usize = 0;
    while index < counts.len()
        invariant
            index <= counts@.len(),
            result == total(counts@.take(index as int)),
        decreases counts@.len() - index,
    {
        proof {
            lemma_total_step(counts@, index as int);
            lemma_total_bound(counts@.take(index as int));
            assert(index * u64::MAX + u64::MAX <= u128::MAX) by (nonlinear_arith)
                requires
                    index < usize::MAX,
            ;
        }
        result = result + counts[index] as u128;
        index = index + 1;
    }
    assert(counts@.take(index as int) =~= counts@);
    result
}

/// Sums counters, where the sum fits.
pub fn sum_checked(counts: &[u64]) -> (result: Option<u64>)
    ensures
        result == (if total(counts@) <= u64::MAX {
            Some(total(counts@) as u64)
        } else {
            None
        }),
{
    let sum: u128 = sum(counts);
    if sum <= u64::MAX as u128 {
        Some(sum as u64)
    } else {
        None
    }
}

} // verus!
