//! Pinned latency buckets: the ordinary grid and the finer calibration grid.
//!
//! Every bound starts the next bucket, so bucket `b` of a grid holds the values
//! from `bounds[b - 1]` (inclusive) to `bounds[b]` (exclusive). The first and
//! the last bucket are open-ended.

use vstd::prelude::*;

verus! {

/// Buckets of the ordinary grid.
pub const BUCKETS: usize = 64;

/// Buckets of the calibration grid.
pub const CALIBRATION_BUCKETS: usize = 250;

/// Bounds of the ordinary grid: one fewer than its buckets.
pub const DEFAULT_BOUND_COUNT: usize = 63;

/// Bounds of the calibration grid: one fewer than its buckets.
pub const CALIBRATION_BOUND_COUNT: usize = 249;

/// Nanosecond bounds of the ordinary grid.
pub const DEFAULT_BOUNDS: [u64; DEFAULT_BOUND_COUNT] = [
    100, 135, 181, 244,
    328, 442, 595, 800,
    1_077, 1_450, 1_951, 2_626,
    3_535, 4_758, 6_404, 8_620,
    11_602, 15_615, 21_017, 28_289,
    38_075, 51_248, 68_978, 92_841,
    124_961, 168_192, 226_380, 304_699,
    410_113, 551_995, 742_964, 1_000_000,
    1_345_960, 1_811_609, 2_438_354, 3_281_928,
    4_417_345, 5_945_571, 8_002_502, 10_771_051,
    14_497_407, 19_512_934, 26_263_635, 35_349_811,
    47_579_443, 64_040_043, 86_195_357, 116_015_530,
    156_152_301, 210_174_801, 282_886_943, 380_754_602,
    512_480_588, 689_778_538, 928_414_545, 1_249_609_141,
    1_681_924_325, 2_263_803_410, 3_046_989_571, 4_101_127_071,
    5_519_954_321, 7_429_639_508, 10_000_000_000,
];

/// Nanosecond bounds of the calibration grid.
///
/// Each finite ordinary interval is split into four geometric calibration
/// buckets, so a calibration bucket can be located from its ordinary bucket.
pub const CALIBRATION_BOUNDS: [u64; CALIBRATION_BOUND_COUNT] = [
    100, 108, 116, 125,
    135, 145, 156, 168,
    181, 195, 210, 226,
    244, 263, 283, 305,
    328, 353, 381, 410,
    442, 476, 513, 552,
    595, 641, 690, 743,
    800, 862, 928, 1_000,
    1_077, 1_160, 1_250, 1_346,
    1_450, 1_562, 1_682, 1_811,
    1_951, 2_101, 2_263, 2_438,
    2_626, 2_829, 3_047, 3_282,
    3_535, 3_808, 4_101, 4_417,
    4_758, 5_125, 5_520, 5_946,
    6_404, 6_898, 7_430, 8_003,
    8_620, 9_285, 10_000, 10_772,
    11_602, 12_496, 13_460, 14_497,
    15_615, 16_819, 18_116, 19_513,
    21_017, 22_638, 24_383, 26_264,
    28_289, 30_470, 32_819, 35_350,
    38_075, 41_011, 44_173, 47_579,
    51_248, 55_200, 59_456, 64_040,
    68_978, 74_296, 80_025, 86_195,
    92_841, 100_000, 107_710, 116_015,
    124_961, 134_596, 144_974, 156_152,
    168_192, 181_161, 195_129, 210_174,
    226_380, 243_835, 262_636, 282_887,
    304_699, 328_193, 353_498, 380_755,
    410_113, 441_735, 475_794, 512_480,
    551_995, 594_557, 640_400, 689_778,
    742_964, 800_250, 861_954, 928_415,
    1_000_000, 1_077_105, 1_160_155, 1_249_609,
    1_345_960, 1_449_740, 1_561_523, 1_681_924,
    1_811_609, 1_951_293, 2_101_748, 2_263_803,
    2_438_354, 2_626_363, 2_828_869, 3_046_990,
    3_281_928, 3_534_981, 3_807_546, 4_101_127,
    4_417_345, 4_757_945, 5_124_806, 5_519_955,
    5_945_571, 6_404_004, 6_897_785, 7_429_639,
    8_002_502, 8_619_536, 9_284_145, 10_000_000,
    10_771_051, 11_601_553, 12_496_092, 13_459_604,
    14_497_407, 15_615_230, 16_819_243, 18_116_092,
    19_512_934, 21_017_480, 22_638_034, 24_383_541,
    26_263_635, 28_288_694, 30_469_896, 32_819_279,
    35_349_811, 38_075_460, 41_011_271, 44_173_447,
    47_579_443, 51_248_059, 55_199_543, 59_455_707,
    64_040_043, 68_977_854, 74_296_395, 80_025_023,
    86_195_357, 92_841_455, 100_000_000, 107_710_506,
    116_015_530, 124_960_914, 134_596_032, 144_974_067,
    156_152_301, 168_192_433, 181_160_920, 195_129_342,
    210_174_801, 226_380_341, 243_835_410, 262_636_352,
    282_886_943, 304_698_957, 328_192_787, 353_498_110,
    380_754_602, 410_112_707, 441_734_470, 475_794_432,
    512_480_588, 551_995_432, 594_557_071, 640_400_427,
    689_778_538, 742_963_951, 800_250_228, 861_953_567,
    928_414_545, 1_000_000_000, 1_077_105_056, 1_160_155_302,
    1_249_609_141, 1_345_960_324, 1_449_740_670, 1_561_523_006,
    1_681_924_325, 1_811_609_194, 1_951_293_423, 2_101_748_012,
    2_263_803_410, 2_438_354_099, 2_626_363_528, 2_828_869_435,
    3_046_989_571, 3_281_927_873, 3_534_981_105, 3_807_546_022,
    4_101_127_071, 4_417_344_703, 4_757_944_314, 5_124_805_877,
    5_519_954_321, 5_945_570_708, 6_404_004_271, 6_897_785_380,
    7_429_639_508, 8_002_502_278, 8_619_535_665, 9_284_145_445,
    10_000_000_000,
];

/// The ordinary bounds as a sequence.
#[verifier::opaque]
pub open spec fn default_grid() -> Seq<u64> {
    DEFAULT_BOUNDS@
}

/// The calibration bounds as a sequence.
#[verifier::opaque]
pub open spec fn calibration_grid() -> Seq<u64> {
    CALIBRATION_BOUNDS@
}

/// Bounds in non-decreasing order.
pub open spec fn sorted(bounds: Seq<u64>) -> bool {
    forall|i: int, j: int| 0 <= i <= j < bounds.len() ==> bounds[i] <= bounds[j]
}

/// The bucket of `value`: one past the last bound that `value` reaches.
pub open spec fn bucket_of(value: u64, bounds: Seq<u64>) -> nat
    decreases bounds.len(),
{
    if bounds.len() == 0 {
        0
    } else if bounds.last() <= value {
        bounds.len()
    } else {
        bucket_of(value, bounds.drop_last())
    }
}

/// Bucketization is total and its bounds are upper-exclusive: a value lies at
/// or above every bound before its bucket and below every bound from it on.
pub proof fn lemma_bucket_of(value: u64, bounds: Seq<u64>)
    requires
        sorted(bounds),
    ensures
        bucket_of(value, bounds) <= bounds.len(),
        forall|i: int| 0 <= i < bucket_of(value, bounds) ==> #[trigger] bounds[i] <= value,
        forall|i: int| bucket_of(value, bounds) <= i < bounds.len() ==> value < #[trigger] bounds[i],
    decreases bounds.len(),
{
    if bounds.len() > 0 && bounds.last() > value {
        let rest = bounds.drop_last();
        lemma_bucket_of(value, rest);
        assert forall|i: int| bucket_of(value, bounds) <= i < bounds.len() implies value
            < #[trigger] bounds[i] by {
            if i < rest.len() {
                assert(rest[i] == bounds[i]);
            }
        }
        assert forall|i: int| 0 <= i < bucket_of(value, bounds) implies #[trigger] bounds[i]
            <= value by {
            assert(rest[i] == bounds[i]);
        }
    }
}

/// A bucket whose bounds enclose a value is that value's bucket.
pub proof fn lemma_bucket_unique(value: u64, bounds: Seq<u64>, bucket: int)
    requires
        sorted(bounds),
        0 <= bucket <= bounds.len(),
        bucket > 0 ==> bounds[bucket - 1] <= value,
        bucket < bounds.len() ==> value < bounds[bucket],
    ensures
        bucket == bucket_of(value, bounds),
{
    lemma_bucket_of(value, bounds);
}

/// A larger value never falls into an earlier bucket.
pub proof fn law_bucket_monotone(low: u64, high: u64, bounds: Seq<u64>)
    requires
        sorted(bounds),
        low <= high,
    ensures
        bucket_of(low, bounds) <= bucket_of(high, bounds),
{
    lemma_bucket_of(low, bounds);
    lemma_bucket_of(high, bounds);
    if bucket_of(low, bounds) > bucket_of(high, bounds) {
        assert(bounds[bucket_of(high, bounds) as int] <= low);
    }
}

/// Both grids have their pinned length and strictly increase.
#[verifier::rlimit(60)]
pub proof fn law_grids_increase()
    ensures
        default_grid().len() == DEFAULT_BOUND_COUNT,
        calibration_grid().len() == CALIBRATION_BOUND_COUNT,
        forall|i: int, j: int|
            0 <= i < j < DEFAULT_BOUND_COUNT ==> default_grid()[i] < default_grid()[j],
        forall|i: int, j: int|
            0 <= i < j < CALIBRATION_BOUND_COUNT ==> calibration_grid()[i] < calibration_grid()[j],
        sorted(default_grid()),
        sorted(calibration_grid()),
{
    reveal(default_grid);
    reveal(calibration_grid);
}

/// The largest bound is ten seconds.
pub const LARGEST_BOUND: u64 = 10_000_000_000;

/// The last calibration bound is the largest one.
proof fn lemma_last_calibration_bound()
    ensures
        calibration_grid()[CALIBRATION_BOUND_COUNT - 1] == LARGEST_BOUND,
{
    reveal(calibration_grid);
}

/// No calibration bound exceeds the largest one.
pub proof fn lemma_calibration_bounds_are_limited()
    ensures
        forall|i: int|
            0 <= i < CALIBRATION_BOUND_COUNT ==> #[trigger] calibration_grid()[i] <= LARGEST_BOUND,
{
    law_grids_increase();
    lemma_last_calibration_bound();
}

/// Every ordinary bound is a calibration bound, four calibration buckets apart.
#[verifier::rlimit(60)]
pub proof fn law_calibration_grid_refines_default_grid()
    ensures
        forall|i: int|
            0 <= i < DEFAULT_BOUND_COUNT ==> #[trigger] default_grid()[i] == calibration_grid()[4
                * i],
{
    reveal(default_grid);
    reveal(calibration_grid);
}

/// Returns the pinned ordinary bounds.
pub fn default_bounds() -> (bounds: &'static [u64; DEFAULT_BOUND_COUNT])
    ensures
        bounds@ == default_grid(),
{
    reveal(default_grid);
    &DEFAULT_BOUNDS
}

/// Returns the pinned calibration bounds.
pub fn calibration_bounds() -> (bounds: &'static [u64; CALIBRATION_BOUND_COUNT])
    ensures
        bounds@ == calibration_grid(),
{
    reveal(calibration_grid);
    &CALIBRATION_BOUNDS
}

/// Returns the bucket of `value` by binary search over `bounds`.
pub fn bucketize(value: u64, bounds: &[u64]) -> (bucket: usize)
    requires
        bounds@.len() > 0,
        sorted(bounds@),
    ensures
        bucket == bucket_of(value, bounds@),
        bucket <= bounds@.len(),
{
    if value < bounds[0] {
        proof {
            lemma_bucket_unique(value, bounds@, 0);
        }
        return 0;
    }
    let mut low: usize = 0;
    let mut high: usize = bounds.len();
    while low < high
        invariant
            sorted(bounds@),
            low <= high <= bounds@.len(),
            low > 0 ==> bounds@[low - 1] <= value,
            high < bounds@.len() ==> value < bounds@[high as int],
        decreases high - low,
    {
        let middle: usize = low + (high - low) / 2;
        if bounds[middle] <= value {
            low = middle + 1;
        } else {
            high = middle;
        }
    }
    proof {
        lemma_bucket_unique(value, bounds@, low as int);
    }
    low
}

/// Returns the ordinary bucket of `value`.
pub fn default_bucketize(value: u64) -> (bucket: usize)
    ensures
        bucket == bucket_of(value, default_grid()),
        bucket < BUCKETS,
{
    proof {
        law_grids_increase();
    }
    bucketize(value, default_bounds().as_slice())
}

/// The calibration bucket reached from an ordinary bucket by searching only the
/// calibration bounds strictly inside it.
pub open spec fn nested_bucket(value: u64, default_bucket: int) -> int {
    if default_bucket == 0 {
        0
    } else if default_bucket == BUCKETS - 1 {
        CALIBRATION_BUCKETS - 1
    } else {
        let first = 1 + (default_bucket - 1) * 4;
        first + bucket_of(value, calibration_grid().subrange(first, first + 3))
    }
}

/// Searching inside a value's own ordinary bucket finds its calibration bucket.
pub proof fn law_nested_search_finds_the_calibration_bucket(value: u64)
    ensures
        nested_bucket(value, bucket_of(value, default_grid()) as int) == bucket_of(
            value,
            calibration_grid(),
        ),
{
    law_grids_increase();
    law_calibration_grid_refines_default_grid();
    lemma_bucket_of(value, default_grid());
    let ordinary = bucket_of(value, default_grid()) as int;
    if ordinary > 0 {
        assert(default_grid()[ordinary - 1] == calibration_grid()[4 * (ordinary - 1)]);
    }
    if ordinary < DEFAULT_BOUND_COUNT {
        assert(default_grid()[ordinary] == calibration_grid()[4 * ordinary]);
    }
    if 0 < ordinary < BUCKETS - 1 {
        let first = 1 + (ordinary - 1) * 4;
        let inner = calibration_grid().subrange(first, first + 3);
        assert(sorted(inner));
        lemma_bucket_of(value, inner);
        let offset = bucket_of(value, inner) as int;
        if offset > 0 {
            assert(inner[offset - 1] == calibration_grid()[first + offset - 1]);
        }
        if offset < 3 {
            assert(inner[offset] == calibration_grid()[first + offset]);
        }
        lemma_bucket_unique(value, calibration_grid(), first + offset);
    } else if ordinary == 0 {
        lemma_bucket_unique(value, calibration_grid(), 0);
    } else {
        lemma_bucket_unique(value, calibration_grid(), CALIBRATION_BOUND_COUNT as int);
    }
}

/// Returns the calibration bucket of `value` inside an already known ordinary
/// bucket, comparing it with three calibration bounds only.
pub fn calibration_bucketize(value: u64, default_bucket: usize) -> (bucket: usize)
    requires
        default_bucket < BUCKETS,
    ensures
        bucket == nested_bucket(value, default_bucket as int),
        bucket < CALIBRATION_BUCKETS,
        default_bucket == bucket_of(value, default_grid()) ==> bucket == bucket_of(
            value,
            calibration_grid(),
        ),
{
    proof {
        law_grids_increase();
        law_nested_search_finds_the_calibration_bucket(value);
    }
    if default_bucket == 0 {
        return 0;
    }
    if default_bucket == BUCKETS - 1 {
        return CALIBRATION_BUCKETS - 1;
    }
    let first: usize = 1 + (default_bucket - 1) * 4;
    let inner = vstd::slice::slice_subrange(calibration_bounds().as_slice(), first, first + 3);
    assert(sorted(inner@)) by {
        assert forall|i: int, j: int| 0 <= i <= j < inner@.len() implies inner@[i] <= inner@[j] by {
            assert(inner@[i] == calibration_grid()[first + i]);
            assert(inner@[j] == calibration_grid()[first + j]);
        }
    }
    first + bucketize(value, inner)
}

} // verus!
