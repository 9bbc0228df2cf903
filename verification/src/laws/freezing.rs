//! What a freeze reports and publishes, in terms of collected marks.

use vstd::prelude::*;

use crate::bucket::{
    calibration_grid, law_grids_increase, lemma_calibration_bounds_are_limited,
    CALIBRATION_BUCKETS, LARGEST_BOUND,
};
use crate::calibration::{
    find_entry, find_report, readiness_samples, CalibrationEstimate, CalibrationPopulationReport,
    CalibrationReadiness, CalibrationTerminal, CalibrationThresholdAvailability, FreezeCriteria,
    FreezeError, FreezeReport, FreezeSelection, FrozenStageCalibration, PopulationReadiness,
    StageCalibrationReadiness, StageCalibrationReport,
};
use crate::counts::{lemma_total_bound, total};
use crate::freeze::{
    freeze_attempt, freeze_outcome, population_terminal, stage_terminal, terminal_before,
};
use crate::init::StageId;
use crate::laws::numbers::{
    covers, law_calibration_estimates_keep_every_field, law_estimates_describe_the_selected_bucket,
    nearest_harmonic_mean,
};
use crate::laws::scoring::reported_value;
use crate::layout::{CalibrationDistribution, Cell};
use crate::quantile::estimate;
use crate::ratio::Ratio;
use crate::recorder::Inner;
use crate::snapshot::{CalibrationPopulation, CalibrationState};

verus! {

/// The distribution that a population is collected in.
pub open spec fn collected_in(population: CalibrationPopulation) -> CalibrationDistribution {
    match population {
        CalibrationPopulation::Local => CalibrationDistribution::Local,
        CalibrationPopulation::CumulativeAfter => CalibrationDistribution::CumulativeAfter,
        CalibrationPopulation::PreviousCumulative => CalibrationDistribution::PreviousCumulative,
    }
}

/// The counters that were collected for one population of one stage, bucket by
/// bucket.
pub open spec fn collected(inner: Inner, stage: StageId, population: CalibrationPopulation) -> Seq<
    u64,
> {
    Seq::new(
        250,
        |bucket: int|
            inner.counters@[inner.layout.offset(
                Cell::Calibration {
                    stage: stage.index as usize,
                    distribution: collected_in(population),
                    bucket: bucket as usize,
                },
            )],
    )
}

proof fn lemma_collected(inner: Inner, stage: StageId, population: CalibrationPopulation)
    requires
        inner.wf(),
        inner.owns(stage),
    ensures
        collected(inner, stage, population) == inner.population_counts(
            stage,
            crate::snapshot::distribution_of(population),
        ),
        collected(inner, stage, population).len() == CALIBRATION_BUCKETS,
        total(collected(inner, stage, population)) <= u128::MAX,
{
    let counts = inner.population_counts(stage, crate::snapshot::distribution_of(population));
    inner.layout.lemma_offset_bounded(
        Cell::Calibration {
            stage: stage.index as usize,
            distribution: collected_in(population),
            bucket: (CALIBRATION_BUCKETS - 1) as usize,
        },
    );
    assert(counts.len() == CALIBRATION_BUCKETS);
    assert(collected(inner, stage, population) =~= counts);
    lemma_total_bound(counts);
}

/// An estimate of collected counters: its rank covers the quantile of all of
/// them, and its bounds are the edges of the first bucket up to which they reach
/// the rank. Between two edges it has their harmonic mean as its value.
pub open spec fn ranks(found: CalibrationEstimate, counts: Seq<u64>, bits: u64, bucket: int) -> bool {
    let grid = calibration_grid();
    &&& 0 <= bucket < 250
    &&& found.samples == total(counts)
    &&& covers(found.rank as int, total(counts), bits)
    &&& total(counts.take(bucket)) < found.rank
    &&& found.rank <= total(counts.take(bucket + 1))
    &&& found.lower_bound == (if bucket == 0 {
        None
    } else {
        Some(grid[bucket - 1])
    })
    &&& found.upper_bound == (if bucket == 249 {
        None
    } else {
        Some(grid[bucket])
    })
    &&& found.terminal == CalibrationTerminal::Lower <==> bucket == 0
    &&& found.terminal == CalibrationTerminal::Upper <==> bucket == 249
    &&& found.value is Some <==> 0 < bucket < 249
    &&& 0 < bucket < 249 ==> {
        let lower = grid[bucket - 1] as int;
        let upper = grid[bucket] as int;
        &&& lower <= found.value->0 < upper
        &&& nearest_harmonic_mean(found.value->0 as int, lower, upper)
        &&& found.max_relative_error == Some(
            Ratio { numerator: (upper - lower) as u128, denominator: (upper + lower) as u128 },
        )
    }
}

/// A report is about exactly one population of one stage of a recorder.
pub open spec fn reports(
    report: CalibrationPopulationReport,
    inner: Inner,
    stage: StageId,
    population: CalibrationPopulation,
) -> bool {
    let counts = collected(inner, stage, population);
    &&& report.population == population
    &&& report.samples == total(counts)
    &&& match report.estimate {
        None => {
            &&& population == CalibrationPopulation::PreviousCumulative
            &&& total(counts) == 0
            &&& report.availability == CalibrationThresholdAvailability::AbsentNoPredecessor
        },
        Some(found) => {
            &&& exists|bucket: int| #[trigger] ranks(found, counts, inner.tail_quantile, bucket)
            &&& report.availability == (if found.terminal == CalibrationTerminal::Finite {
                CalibrationThresholdAvailability::Available
            } else {
                CalibrationThresholdAvailability::RangeInsufficient
            })
        },
    }
}

/// The report of a population is estimated from the counters of exactly that
/// population of that stage. There is one unless their sum cannot be ranked: too
/// large, or zero for a population that every stage must have.
pub proof fn law_reports_rank_their_own_population(
    inner: Inner,
    stage: StageId,
    population: CalibrationPopulation,
)
    requires
        inner.wf(),
        inner.owns(stage),
    ensures
        ({
            let samples = total(collected(inner, stage, population));
            let rankable = samples <= u64::MAX && (samples > 0 || population
                == CalibrationPopulation::PreviousCumulative);
            match inner.population_report(stage, population) {
                Ok(report) => rankable && reports(report, inner, stage, population),
                Err(error) => !rankable && error == (FreezeError::CalibrationArithmeticOverflow {
                    stage,
                    population,
                }),
            }
        }),
{
    let counts = collected(inner, stage, population);
    lemma_collected(inner, stage, population);
    law_grids_increase();
    law_estimates_describe_the_selected_bucket(counts, calibration_grid(), inner.tail_quantile);
    if let Ok(Some(found)) = estimate(counts, calibration_grid(), inner.tail_quantile) {
        law_calibration_estimates_keep_every_field(found);
        let bucket = found.selection.bucket as int;
        if 0 < bucket < 249 {
            lemma_calibration_bounds_are_limited();
            let lower = calibration_grid()[bucket - 1];
            let upper = calibration_grid()[bucket];
            assert(lower * upper <= LARGEST_BOUND * LARGEST_BOUND) by (nonlinear_arith)
                requires
                    lower <= LARGEST_BOUND,
                    upper <= LARGEST_BOUND,
            ;
        }
        if let Ok(report) = inner.population_report(stage, population) {
            if report.estimate is Some {
                assert(ranks(report.estimate->0, counts, inner.tail_quantile, bucket));
            }
        }
    }
}

/// The report of a stage holds one report for each of its populations.
pub open spec fn reports_stage(report: StageCalibrationReport, inner: Inner, stage: StageId) -> bool {
    &&& report.stage == stage
    &&& reports(report.local, inner, stage, CalibrationPopulation::Local)
    &&& reports(report.cumulative_after, inner, stage, CalibrationPopulation::CumulativeAfter)
    &&& reports(report.previous_cumulative, inner, stage, CalibrationPopulation::PreviousCumulative)
}

/// A stage report is about the populations of its own stage.
pub proof fn law_stage_reports_are_about_their_stage(inner: Inner, stage: StageId)
    requires
        inner.wf(),
        inner.owns(stage),
    ensures
        match inner.stage_report(stage) {
            Ok(report) => reports_stage(report, inner, stage),
            Err(error) => exists|population: CalibrationPopulation|
                #![trigger collected_in(population)]
                error == (FreezeError::CalibrationArithmeticOverflow { stage, population }) && (
                total(collected(inner, stage, population)) > u64::MAX || total(
                    collected(inner, stage, population),
                ) == 0),
        },
{
    law_reports_rank_their_own_population(inner, stage, CalibrationPopulation::Local);
    law_reports_rank_their_own_population(inner, stage, CalibrationPopulation::CumulativeAfter);
    law_reports_rank_their_own_population(inner, stage, CalibrationPopulation::PreviousCumulative);
    assert(collected_in(CalibrationPopulation::Local) == CalibrationDistribution::Local);
    assert(collected_in(CalibrationPopulation::CumulativeAfter)
        == CalibrationDistribution::CumulativeAfter);
    assert(collected_in(CalibrationPopulation::PreviousCumulative)
        == CalibrationDistribution::PreviousCumulative);
}

/// A successful freeze reports every selected stage, in the order of the
/// selection and from its own counters, with finite values for what marks are
/// held against. It publishes exactly these reports, each for its stage, and
/// leaves every counter but the online ones.
pub proof fn law_successful_freezes_report_and_publish_the_selected_stages(
    before: Inner,
    requested: Seq<StageId>,
    minimum: u64,
    report: FreezeReport,
    after: Inner,
)
    requires
        before.wf(),
        freeze_outcome(
            before,
            before.selected(requested),
            minimum,
            Ok::<FreezeReport, FreezeError>(report),
            after,
        ),
    ensures
        ({
            let stages = before.selected(requested);
            &&& report.epoch == Some(1u16)
            &&& report.stages@.len() == stages.len()
            &&& after.calibration_state == CalibrationState::Frozen
            &&& after.calibration_epoch == 1
            &&& after.frozen_calibration@.len() == before.layout.stage_count
            &&& forall|i: int|
                #![trigger report.stages@[i]]
                0 <= i < stages.len() ==> {
                    let entry = report.stages@[i];
                    &&& reports_stage(entry, before, stages[i])
                    &&& reported_value(entry.local) is Some
                    &&& reported_value(entry.cumulative_after) is Some
                    &&& total(
                        collected(before, stages[i], CalibrationPopulation::PreviousCumulative),
                    ) > 0 ==> reported_value(entry.previous_cumulative) is Some
                    &&& after.frozen_calibration@[stages[i].index as int] == Some(
                        FrozenStageCalibration { report: entry },
                    )
                }
            &&& forall|index: int|
                0 <= index < after.frozen_calibration@.len()
                    && #[trigger] after.frozen_calibration@[index] is Some ==> stages.contains(
                    StageId { cookie: before.cookie, index: index as u8 },
                )
        }),
{
    let stages = before.selected(requested);
    before.lemma_chosen(requested, before.layout.stage_count as int);
    before.lemma_reports_match_stages(stages, stages.len() as int);
    let entries = report.stages@;
    assert forall|i: int| #![trigger entries[i]] 0 <= i < stages.len() implies {
        let entry = entries[i];
        &&& reports_stage(entry, before, stages[i])
        &&& reported_value(entry.local) is Some
        &&& reported_value(entry.cumulative_after) is Some
        &&& total(collected(before, stages[i], CalibrationPopulation::PreviousCumulative)) > 0
            ==> reported_value(entry.previous_cumulative) is Some
        &&& after.frozen_calibration@[stages[i].index as int] == Some(
            FrozenStageCalibration { report: entry },
        )
    } by {
        assert(before.stage_report(stages[i]) == Ok::<StageCalibrationReport, FreezeError>(
            entries[i],
        ));
        assert(before.owns(stages[i]));
        law_stage_reports_are_about_their_stage(before, stages[i]);
        lemma_no_terminal_anywhere(entries, entries.len() as int, i);
        lemma_finite_reports_have_values(entries[i], before, stages[i]);
    }
    assert forall|index: int|
        0 <= index < after.frozen_calibration@.len()
            && #[trigger] after.frozen_calibration@[index] is Some implies stages.contains(
        StageId { cookie: before.cookie, index: index as u8 },
    ) by {
        let i = choose|i: int| 0 <= i < entries.len() && (#[trigger] entries[i]).stage.index == index;
        assert(entries[i].stage == stages[i]);
        assert(before.owns(stages[i]));
        assert(stages[i] == (StageId { cookie: before.cookie, index: index as u8 }));
    }
}

proof fn lemma_finite_reports_have_values(
    entry: StageCalibrationReport,
    inner: Inner,
    stage: StageId,
)
    requires
        reports_stage(entry, inner, stage),
        stage_terminal(entry) is None,
    ensures
        reported_value(entry.local) is Some,
        reported_value(entry.cumulative_after) is Some,
        total(collected(inner, stage, CalibrationPopulation::PreviousCumulative)) > 0
            ==> reported_value(entry.previous_cumulative) is Some,
{
    let bits = inner.tail_quantile;
    assert(entry.local.estimate is Some);
    assert(entry.cumulative_after.estimate is Some);
    let first = choose|bucket: int| #[trigger]
        ranks(
            entry.local.estimate->0,
            collected(inner, stage, CalibrationPopulation::Local),
            bits,
            bucket,
        );
    let second = choose|bucket: int| #[trigger]
        ranks(
            entry.cumulative_after.estimate->0,
            collected(inner, stage, CalibrationPopulation::CumulativeAfter),
            bits,
            bucket,
        );
    assert(population_terminal(entry.local) is None);
    assert(population_terminal(entry.cumulative_after) is None);
    assert(population_terminal(entry.previous_cumulative) is None);
    if entry.previous_cumulative.estimate is Some {
        let third = choose|bucket: int| #[trigger]
            ranks(
                entry.previous_cumulative.estimate->0,
                collected(inner, stage, CalibrationPopulation::PreviousCumulative),
                bits,
                bucket,
            );
        assert(0 < third < 249);
    }
    assert(0 < first < 249);
    assert(0 < second < 249);
}

proof fn lemma_no_terminal_anywhere(entries: Seq<StageCalibrationReport>, end: int, at: int)
    requires
        0 <= at < end,
        terminal_before(entries, end) is None,
    ensures
        stage_terminal(entries[at]) is None,
    decreases end,
{
    if at < end - 1 {
        lemma_no_terminal_anywhere(entries, end - 1, at);
    }
}

/// A readiness says how many samples a population has and whether they are
/// enough.
pub open spec fn says_enough(
    readiness: PopulationReadiness,
    samples: nat,
    minimum: u64,
    may_be_absent: bool,
) -> bool {
    match readiness {
        PopulationReadiness::Ready { samples: seen, minimum: asked } => seen == samples && asked
            == minimum && samples > 0 && samples >= minimum,
        PopulationReadiness::Insufficient { samples: seen, minimum: asked } => seen == samples
            && asked == minimum && (samples < minimum || (samples == 0 && !may_be_absent)) && !(
        may_be_absent && samples == 0),
        PopulationReadiness::AbsentNoPredecessor => may_be_absent && samples == 0,
    }
}

/// The readiness of a stage counts each of its own populations; only the
/// previous-cumulative one may be absent.
pub proof fn law_readiness_counts_each_population(inner: Inner, stage: StageId, minimum: u64)
    requires
        inner.wf(),
        inner.owns(stage),
    ensures
        ({
            let ready = inner.stage_readiness(stage, minimum);
            &&& ready.stage == stage
            &&& says_enough(
                ready.local,
                total(collected(inner, stage, CalibrationPopulation::Local)),
                minimum,
                false,
            )
            &&& says_enough(
                ready.cumulative_after,
                total(collected(inner, stage, CalibrationPopulation::CumulativeAfter)),
                minimum,
                false,
            )
            &&& says_enough(
                ready.previous_cumulative,
                total(collected(inner, stage, CalibrationPopulation::PreviousCumulative)),
                minimum,
                true,
            )
        }),
{
    lemma_collected(inner, stage, CalibrationPopulation::Local);
    lemma_collected(inner, stage, CalibrationPopulation::CumulativeAfter);
    lemma_collected(inner, stage, CalibrationPopulation::PreviousCumulative);
}

/// A stage may be frozen when the populations that it must have are enough, and
/// the previous-cumulative one is absent or enough.
pub open spec fn may_freeze(inner: Inner, stage: StageId, minimum: u64) -> bool {
    let local = total(collected(inner, stage, CalibrationPopulation::Local));
    let after = total(collected(inner, stage, CalibrationPopulation::CumulativeAfter));
    let previous = total(collected(inner, stage, CalibrationPopulation::PreviousCumulative));
    &&& local > 0 && local >= minimum
    &&& after > 0 && after >= minimum
    &&& previous == 0 || previous >= minimum
}

proof fn lemma_ready(inner: Inner, stage: StageId, minimum: u64)
    requires
        inner.wf(),
        inner.owns(stage),
    ensures
        inner.stage_readiness(stage, minimum).ready() <==> may_freeze(inner, stage, minimum),
{
    law_readiness_counts_each_population(inner, stage, minimum);
}

/// A failed freeze says why, and leaves a collecting recorder that is otherwise
/// as it was. It is not ready exactly when some stage may not be frozen, and then
/// lists the readiness of every stage in order. Otherwise it names a selected
/// stage and a population of it whose sum cannot be ranked, or the first one
/// whose rank is outside the finite range, with reports of all stages.
pub proof fn law_failed_freezes_say_why(
    before: Inner,
    requested: Seq<StageId>,
    minimum: u64,
    error: FreezeError,
    after: Inner,
)
    requires
        before.wf(),
        freeze_outcome(
            before,
            before.selected(requested),
            minimum,
            Err::<FreezeReport, FreezeError>(error),
            after,
        ),
    ensures
        after.calibration_state == CalibrationState::Collecting,
        after.counters == before.counters,
        after.frozen_calibration == before.frozen_calibration,
        after.calibration_epoch == before.calibration_epoch,
        ({
            let stages = before.selected(requested);
            let all = forall|i: int|
                0 <= i < stages.len() ==> may_freeze(before, #[trigger] stages[i], minimum);
            &&& error is NotReady <==> !all
            &&& match error {
                FreezeError::NotReady { readiness } => {
                    &&& readiness.minimum_samples == minimum
                    &&& readiness.stages@.len() == stages.len()
                    &&& forall|i: int|
                        0 <= i < stages.len() ==> #[trigger] readiness.stages@[i]
                            == before.stage_readiness(stages[i], minimum)
                },
                FreezeError::CalibrationArithmeticOverflow { stage, population } => {
                    &&& stages.contains(stage)
                    &&& total(collected(before, stage, population)) > u64::MAX || total(
                        collected(before, stage, population),
                    ) == 0
                },
                FreezeError::CalibrationRangeInsufficient {
                    stage,
                    population,
                    terminal,
                    report,
                } => {
                    &&& report.epoch is None
                    &&& report.stages@.len() == stages.len()
                    &&& forall|i: int|
                        0 <= i < stages.len() ==> reports_stage(
                            #[trigger] report.stages@[i],
                            before,
                            stages[i],
                        )
                    &&& exists|i: int|
                        0 <= i < stages.len() && stages[i] == stage && first_out_of_range(
                            #[trigger] report.stages@[i],
                            population,
                            terminal,
                        ) && forall|j: int|
                            0 <= j < i ==> all_in_range(#[trigger] report.stages@[j])
                },
                _ => false,
            }
        }),
{
    let stages = before.selected(requested);
    before.lemma_chosen(requested, before.layout.stage_count as int);
    assert forall|i: int| 0 <= i < stages.len() implies before.stage_readiness(
        #[trigger] stages[i],
        minimum,
    ).ready() == may_freeze(before, stages[i], minimum) by {
        assert(before.owns(stages[i]));
        lemma_ready(before, stages[i], minimum);
    }
    if before.stages_ready(stages, minimum) {
        assert forall|i: int| 0 <= i < stages.len() implies may_freeze(
            before,
            #[trigger] stages[i],
            minimum,
        ) by {
            assert(before.stage_readiness(stages[i], minimum).ready());
        }
        match before.stage_reports(stages, stages.len() as int) {
            Err(_) => {
                lemma_unrankable_stage(before, stages, stages.len() as int);
            },
            Ok(entries) => {
                before.lemma_reports_match_stages(stages, stages.len() as int);
                assert forall|i: int| 0 <= i < stages.len() implies reports_stage(
                    #[trigger] entries[i],
                    before,
                    stages[i],
                ) by {
                    assert(before.stage_report(stages[i]) == Ok::<
                        StageCalibrationReport,
                        FreezeError,
                    >(entries[i]));
                    assert(before.owns(stages[i]));
                    law_stage_reports_are_about_their_stage(before, stages[i]);
                }
                lemma_first_terminal(before, entries, stages, entries.len() as int);
            },
        }
    } else {
        let i = choose|i: int|
            0 <= i < stages.len() && !before.stage_readiness(#[trigger] stages[i], minimum).ready();
        assert(!may_freeze(before, stages[i], minimum));
    }
}

/// No estimate of a stage report is outside the finite range.
pub open spec fn all_in_range(report: StageCalibrationReport) -> bool {
    in_range(report.local) && in_range(report.cumulative_after) && in_range(
        report.previous_cumulative,
    )
}

/// An estimate is missing or within the finite range.
pub open spec fn in_range(report: CalibrationPopulationReport) -> bool {
    match report.estimate {
        Some(found) => found.terminal == CalibrationTerminal::Finite,
        None => true,
    }
}

/// The first population of a stage report, in the order of local,
/// cumulative-after and previous-cumulative, whose estimate is out of range.
pub open spec fn first_out_of_range(
    report: StageCalibrationReport,
    population: CalibrationPopulation,
    terminal: CalibrationTerminal,
) -> bool {
    match population {
        CalibrationPopulation::Local => is_out(report.local, terminal),
        CalibrationPopulation::CumulativeAfter => in_range(report.local) && is_out(
            report.cumulative_after,
            terminal,
        ),
        CalibrationPopulation::PreviousCumulative => in_range(report.local) && in_range(
            report.cumulative_after,
        ) && is_out(report.previous_cumulative, terminal),
    }
}

/// An estimate is out of range on a side.
pub open spec fn is_out(report: CalibrationPopulationReport, terminal: CalibrationTerminal) -> bool {
    match report.estimate {
        Some(found) => found.terminal == terminal && terminal != CalibrationTerminal::Finite,
        None => false,
    }
}

proof fn lemma_first_terminal(
    inner: Inner,
    entries: Seq<StageCalibrationReport>,
    stages: Seq<StageId>,
    end: int,
)
    requires
        0 <= end <= entries.len(),
        entries.len() == stages.len(),
        forall|i: int|
            0 <= i < stages.len() ==> reports_stage(#[trigger] entries[i], inner, stages[i]),
    ensures
        match terminal_before(entries, end) {
            None => forall|i: int| 0 <= i < end ==> all_in_range(#[trigger] entries[i]),
            Some((stage, population, terminal)) => exists|i: int|
                0 <= i < end && stages[i] == stage && first_out_of_range(
                    #[trigger] entries[i],
                    population,
                    terminal,
                ) && forall|j: int| 0 <= j < i ==> all_in_range(#[trigger] entries[j]),
        },
    decreases end,
{
    if end > 0 {
        lemma_first_terminal(inner, entries, stages, end - 1);
        assert(reports_stage(entries[end - 1], inner, stages[end - 1]));
    }
}

proof fn lemma_unrankable_stage(inner: Inner, stages: Seq<StageId>, end: int)
    requires
        inner.wf(),
        crate::freeze::all_owned(inner, stages),
        0 <= end <= stages.len(),
        inner.stage_reports(stages, end) is Err,
    ensures
        inner.stage_reports(stages, end)->Err_0 matches FreezeError::CalibrationArithmeticOverflow {
            stage,
            population,
        } && stages.contains(stage) && (total(collected(inner, stage, population)) > u64::MAX
            || total(collected(inner, stage, population)) == 0),
    decreases end,
{
    if end > 0 {
        if inner.stage_reports(stages, end - 1) is Err {
            lemma_unrankable_stage(inner, stages, end - 1);
        } else {
            assert(inner.owns(stages[end - 1]));
            law_stage_reports_are_about_their_stage(inner, stages[end - 1]);
            assert(stages.contains(stages[end - 1]));
        }
    }
}

/// A selection is refused exactly when it is empty, when it holds a stage of
/// another recorder or when it holds a stage twice. The error names a stage that
/// is at fault, and no stage before that one is.
pub proof fn law_selections_are_refused_for_their_reason(inner: Inner, stages: Seq<StageId>)
    ensures
        match inner.refused_selection(stages) {
            None => stages.len() > 0 && stages.no_duplicates() && forall|i: int|
                0 <= i < stages.len() ==> inner.owns(#[trigger] stages[i]),
            Some(FreezeError::NoStagesSelected) => stages.len() == 0,
            Some(FreezeError::InvalidStageSelection { stage }) => exists|i: int|
                0 <= i < stages.len() && #[trigger] stages[i] == stage && !inner.owns(stage)
                    && sound(inner, stages.take(i)),
            Some(FreezeError::DuplicateStageSelection { stage }) => exists|i: int|
                0 <= i < stages.len() && #[trigger] stages[i] == stage && stages.take(i).contains(
                    stage,
                ) && sound(inner, stages.take(i)),
            Some(_) => false,
        },
{
    if stages.len() > 0 {
        lemma_selection_errors(inner, stages, stages.len() as int);
        assert(stages.take(stages.len() as int) =~= stages);
    }
}

/// Stages of a recorder, none of them twice.
pub open spec fn sound(inner: Inner, stages: Seq<StageId>) -> bool {
    stages.no_duplicates() && forall|i: int|
        0 <= i < stages.len() ==> inner.owns(#[trigger] stages[i])
}

proof fn lemma_selection_errors(inner: Inner, stages: Seq<StageId>, end: int)
    requires
        0 <= end <= stages.len(),
    ensures
        match inner.selection_error(stages, end) {
            None => sound(inner, stages.take(end)),
            Some(FreezeError::InvalidStageSelection { stage }) => exists|i: int|
                0 <= i < end && #[trigger] stages[i] == stage && !inner.owns(stage) && sound(
                    inner,
                    stages.take(i),
                ),
            Some(FreezeError::DuplicateStageSelection { stage }) => exists|i: int|
                0 <= i < end && #[trigger] stages[i] == stage && stages.take(i).contains(stage)
                    && sound(inner, stages.take(i)),
            Some(_) => false,
        },
    decreases end,
{
    if end > 0 {
        lemma_selection_errors(inner, stages, end - 1);
        let last = stages[end - 1];
        let rest = stages.take(end - 1);
        if inner.selection_error(stages, end) is None {
            let all = stages.take(end);
            assert(all =~= rest.push(last));
            assert forall|i: int, j: int| 0 <= i < all.len() && 0 <= j < all.len() && i
                != j implies all[i] != all[j] by {
                if i < end - 1 && j < end - 1 {
                    assert(rest[i] != rest[j]);
                } else if i < end - 1 {
                    assert(rest[i] == all[i]);
                } else {
                    assert(rest[j] == all[j]);
                }
            }
            assert forall|i: int| 0 <= i < all.len() implies inner.owns(#[trigger] all[i]) by {
                if i < end - 1 {
                    assert(inner.owns(rest[i]));
                }
            }
        }
    }
}

/// Accepted stages are frozen in registration order: the same stages as were
/// asked for, each once, by increasing position.
pub proof fn law_selections_are_put_in_registration_order(inner: Inner, stages: Seq<StageId>)
    requires
        inner.wf(),
        inner.refused_selection(stages) is None,
    ensures
        ({
            let selected = inner.selected(stages);
            &&& forall|stage: StageId| #[trigger]
                selected.contains(stage) <==> stages.contains(stage)
            &&& forall|i: int, j: int|
                0 <= i < j < selected.len() ==> (#[trigger] selected[i]).index < (
                #[trigger] selected[j]).index
        }),
{
    law_selections_are_refused_for_their_reason(inner, stages);
    inner.lemma_chosen(stages, inner.layout.stage_count as int);
    let selected = inner.selected(stages);
    assert forall|stage: StageId| #[trigger] selected.contains(stage) <==> stages.contains(
        stage,
    ) by {
        if stages.contains(stage) {
            let i = choose|i: int| 0 <= i < stages.len() && stages[i] == stage;
            assert(inner.owns(stages[i]));
        }
    }
}

/// A request for all stages asks for every registered stage; any other asks for
/// what it lists.
pub proof fn law_criteria_ask_for_what_they_say(inner: Inner, criteria: FreezeCriteria)
    requires
        inner.wf(),
    ensures
        match criteria.selection {
            FreezeSelection::All => forall|stage: StageId| #[trigger]
                inner.requested(criteria).contains(stage) <==> stage.cookie == inner.cookie
                    && stage.index < inner.stage_names@.len(),
            FreezeSelection::Selected(stages) => inner.requested(criteria) == stages@,
        },
{
    if criteria.selection is All {
        let all = inner.requested(criteria);
        assert forall|stage: StageId| #[trigger] all.contains(stage) <==> stage.cookie
            == inner.cookie && stage.index < inner.stage_names@.len() by {
            if stage.cookie == inner.cookie && stage.index < inner.stage_names@.len() {
                assert(all[stage.index as int] == stage);
            }
        }
    }
}

/// Only a collecting recorder freezes: a refused selection comes first, a freeze
/// in progress or a finished one refuses every other, and none of these changes
/// the recorder.
pub proof fn law_only_collecting_recorders_freeze(
    before: Inner,
    criteria: FreezeCriteria,
    result: Result<FreezeReport, FreezeError>,
    after: Inner,
)
    requires
        freeze_attempt(before, criteria, result, after),
    ensures
        ({
            let refused = before.refused_selection(before.requested(criteria));
            &&& refused is Some ==> after == before && result == Err::<FreezeReport, FreezeError>(
                refused->0,
            )
            &&& refused is None && before.calibration_state == CalibrationState::Freezing ==> after
                == before && result == Err::<FreezeReport, FreezeError>(
                FreezeError::AlreadyFreezing,
            )
            &&& refused is None && before.calibration_state == CalibrationState::Frozen ==> after
                == before && result == Err::<FreezeReport, FreezeError>(
                FreezeError::AlreadyFrozen { epoch: before.calibration_epoch },
            )
            &&& refused is None && before.calibration_state == CalibrationState::Collecting
                ==> freeze_outcome(
                before,
                before.selected(before.requested(criteria)),
                criteria.minimum_samples,
                result,
                after,
            )
        }),
{
}

/// A readiness entry is found by its stage: the first one of that stage, and none
/// exactly when there is none.
pub proof fn law_readiness_is_found_by_its_stage(
    entries: Seq<StageCalibrationReadiness>,
    stage: StageId,
    end: int,
)
    requires
        0 <= end <= entries.len(),
    ensures
        match find_entry(entries, stage, end) {
            None => forall|i: int| 0 <= i < end ==> (#[trigger] entries[i]).stage != stage,
            Some(found) => exists|i: int|
                0 <= i < end && #[trigger] entries[i] == found && found.stage == stage && forall|
                    j: int,
                |
                    0 <= j < i ==> (#[trigger] entries[j]).stage != stage,
        },
    decreases end,
{
    if end > 0 {
        law_readiness_is_found_by_its_stage(entries, stage, end - 1);
        assert(entries[end - 1] == entries[end - 1]);
    }
}

/// A stage report is found by its stage: the first one of that stage, and none
/// exactly when there is none.
pub proof fn law_reports_are_found_by_their_stage(
    entries: Seq<StageCalibrationReport>,
    stage: StageId,
    end: int,
)
    requires
        0 <= end <= entries.len(),
    ensures
        match find_report(entries, stage, end) {
            None => forall|i: int| 0 <= i < end ==> (#[trigger] entries[i]).stage != stage,
            Some(found) => exists|i: int|
                0 <= i < end && #[trigger] entries[i] == found && found.stage == stage && forall|
                    j: int,
                |
                    0 <= j < i ==> (#[trigger] entries[j]).stage != stage,
        },
    decreases end,
{
    if end > 0 {
        law_reports_are_found_by_their_stage(entries, stage, end - 1);
        assert(entries[end - 1] == entries[end - 1]);
    }
}

/// A stage is ready unless one of its populations has too few samples, and a
/// readiness as a whole unless one of its stages is not.
pub proof fn law_readiness_needs_every_population(
    stage: StageCalibrationReadiness,
    readiness: CalibrationReadiness,
)
    ensures
        stage.ready() <==> {
            &&& !(stage.local is Insufficient)
            &&& !(stage.cumulative_after is Insufficient)
            &&& !(stage.previous_cumulative is Insufficient)
        },
        readiness.ready() <==> forall|i: int|
            0 <= i < readiness.stages@.len() ==> {
                &&& !((#[trigger] readiness.stages@[i]).local is Insufficient)
                &&& !(readiness.stages@[i].cumulative_after is Insufficient)
                &&& !(readiness.stages@[i].previous_cumulative is Insufficient)
            },
{
    if readiness.ready() {
        assert forall|i: int| 0 <= i < readiness.stages@.len() implies {
            &&& !((#[trigger] readiness.stages@[i]).local is Insufficient)
            &&& !(readiness.stages@[i].cumulative_after is Insufficient)
            &&& !(readiness.stages@[i].previous_cumulative is Insufficient)
        } by {
            assert(readiness.stages@[i].ready());
        }
    }
}

/// A readiness tells the samples that it was made from, and none where there is no
/// predecessor.
pub proof fn law_readiness_tells_its_samples(readiness: PopulationReadiness)
    ensures
        match readiness {
            PopulationReadiness::Ready { samples, .. } => readiness_samples(readiness) == samples,
            PopulationReadiness::Insufficient { samples, .. } => readiness_samples(readiness)
                == samples,
            PopulationReadiness::AbsentNoPredecessor => readiness_samples(readiness) == 0,
        },
{
}

/// The readiness of a recorder has one entry for each of its stages, in
/// registration order.
pub proof fn law_readiness_covers_every_stage(inner: Inner, minimum: u64, at: int)
    requires
        0 <= at < inner.layout.stage_count,
        inner.layout.stage_count <= 64,
    ensures
        ({
            let entries = inner.readiness_entries(inner.registered_stages(), minimum);
            &&& entries.len() == inner.layout.stage_count
            &&& entries[at].stage.index == at
            &&& entries[at].stage.cookie == inner.cookie
        }),
{
}

} // verus!
