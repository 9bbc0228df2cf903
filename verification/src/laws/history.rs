//! What the counters and the reports of a recorder say about its history.

use vstd::prelude::*;

use crate::bucket::{calibration_grid, law_grids_increase};
use crate::calibration::{
    CalibrationPopulationReport, FreezeCriteria, FreezeError, FreezeReport, StageCalibrationReport,
};
use crate::checkpoint::{Checkpoint, MarkMode};
use crate::counts::total;
use crate::init::{StageId, Tracegrams};
use crate::laws::freezing::{
    collected, collected_in, law_reports_rank_their_own_population,
    law_successful_freezes_report_and_publish_the_selected_stages, ranks, reports,
};
use crate::laws::marks::{
    law_accepted_marks_are_collected, lies_in, recorded_after, recorded_local,
};
use crate::laws::numbers::covers;
use crate::laws::{
    event_count, history, law_counters_count_their_events, recorded, touch_count, Event,
};
use crate::layout::Cell;
use crate::recorder::stepped;
use crate::snapshot::CalibrationPopulation;

verus! {

/// Whether an event is a mark that touches a counter.
pub open spec fn touching(event: Event, cell: Cell) -> bool {
    match event {
        Event::Mark { checkpoint } => checkpoint.touches(cell),
        Event::Freeze { .. } => false,
    }
}

/// Every counter but the online ones is the number of marks that touched it since
/// the recorder was new, whatever freezes were attempted between them.
pub proof fn law_counters_are_numbers_of_marks(
    states: Seq<Tracegrams>,
    events: Seq<Event>,
    cell: Cell,
)
    requires
        history(states, events),
        events.len() <= u64::MAX,
        states.last().inner.layout.holds(cell),
        !(cell is Online),
    ensures
        states.last().inner.wf(),
        states.last().inner.layout == states[0].inner.layout,
        states.last().inner.counters@[states.last().inner.layout.offset(cell)] == event_count(
            events,
            |event: Event| touching(event, cell),
        ),
        event_count(events, |event: Event| touching(event, cell)) <= events.len(),
    decreases events.len(),
{
    let kind = |event: Event| touching(event, cell);
    if events.len() == 0 {
        states[0].inner.layout.lemma_offset_bounded(cell);
    } else {
        let end = events.len() - 1;
        let before = states[end];
        let after = states[end + 1];
        super::lemma_shorter_history(states, events);
        assert(states.drop_last().last() == before);
        assert(events[end].leads(before, after));
        assert(after.inner.layout == before.inner.layout);
        law_counters_are_numbers_of_marks(states.drop_last(), events.drop_last(), cell);
        let place = before.inner.layout.offset(cell);
        before.inner.layout.lemma_offset_bounded(cell);
        match events[end] {
            Event::Mark { checkpoint } => {
                assert(after.inner.counters@[place] == stepped(
                    before.inner.counters@[place],
                    checkpoint.touches(cell),
                ));
            },
            Event::Freeze { .. } => {
                assert(after.inner.counters@[place] == before.inner.counters@[place]);
            },
        }
        assert(kind(events.last()) == touching(events[end], cell));
    }
}

/// Every online counter is the number of marks that touched it since the
/// successful freeze, up to its largest value.
pub proof fn law_online_counters_start_with_the_freeze(
    before: Tracegrams,
    criteria: FreezeCriteria,
    report: FreezeReport,
    states: Seq<Tracegrams>,
    marks: Seq<Checkpoint>,
    stage: usize,
    counter: usize,
)
    requires
        before.wf(),
        (Event::Freeze { criteria, result: Ok::<FreezeReport, FreezeError>(report) }).leads(
            before,
            states[0],
        ),
        recorded(states, marks),
        before.inner.layout.holds(Cell::Online { stage, counter }),
    ensures
        ({
            let cell = Cell::Online { stage, counter };
            let place = before.inner.layout.offset(cell);
            let count = touch_count(marks, cell);
            states.last().inner.counters@[place] == (if count > u64::MAX {
                u64::MAX as int
            } else {
                count as int
            })
        }),
{
    let cell = Cell::Online { stage, counter };
    before.inner.layout.lemma_offset_bounded(cell);
    assert(states[0].inner.counters@[before.inner.layout.offset(cell)] == 0);
    law_counters_count_their_events(states, marks, cell);
}

/// The latency of a mark that a population is about.
pub open spec fn latency(mark: Checkpoint, population: CalibrationPopulation) -> int {
    match population {
        CalibrationPopulation::Local => recorded_local(mark),
        CalibrationPopulation::CumulativeAfter => recorded_after(mark),
        CalibrationPopulation::PreviousCumulative => mark.context.cumulative_ns as int,
    }
}

/// Whether an event is an accepted mark at a stage that was made while collecting,
/// with a predecessor where the population is about one, and with a latency below
/// a limit where there is one.
pub open spec fn collects(
    event: Event,
    stage: StageId,
    population: CalibrationPopulation,
    limit: Option<u64>,
) -> bool {
    match event {
        Event::Mark { checkpoint } => {
            &&& checkpoint.rejection() is None
            &&& checkpoint.stage.index == stage.index
            &&& checkpoint.mode == MarkMode::Collecting
            &&& population == CalibrationPopulation::PreviousCumulative
                ==> checkpoint.context.previous is Some
            &&& match limit {
                Some(bound) => latency(checkpoint, population) < bound,
                None => true,
            }
        },
        Event::Freeze { .. } => false,
    }
}

/// How many marks were collected for a population of a stage, below a limit where
/// there is one.
pub open spec fn number_collected(
    events: Seq<Event>,
    stage: StageId,
    population: CalibrationPopulation,
    limit: Option<u64>,
) -> nat {
    event_count(events, |event: Event| collects(event, stage, population, limit))
}

proof fn lemma_count_of_none(events: Seq<Event>, kind: spec_fn(Event) -> bool)
    requires
        forall|event: Event| !(#[trigger] kind(event)),
    ensures
        event_count(events, kind) == 0,
    decreases events.len(),
{
    if events.len() > 0 {
        lemma_count_of_none(events.drop_last(), kind);
    }
}

proof fn lemma_counts_add(
    events: Seq<Event>,
    whole: spec_fn(Event) -> bool,
    first: spec_fn(Event) -> bool,
    second: spec_fn(Event) -> bool,
)
    requires
        forall|event: Event| #[trigger] whole(event) <==> first(event) || second(event),
        forall|event: Event| !(#[trigger] first(event) && second(event)),
    ensures
        event_count(events, whole) == event_count(events, first) + event_count(events, second),
    decreases events.len(),
{
    if events.len() > 0 {
        lemma_counts_add(events.drop_last(), whole, first, second);
        assert(whole(events.last()) <==> first(events.last()) || second(events.last()));
        assert(!(first(events.last()) && second(events.last())));
    }
}

proof fn lemma_count_is_limited(events: Seq<Event>, kind: spec_fn(Event) -> bool)
    ensures
        event_count(events, kind) <= events.len(),
    decreases events.len(),
{
    if events.len() > 0 {
        lemma_count_is_limited(events.drop_last(), kind);
    }
}

/// The bound below the end of some buckets.
spec fn edge(end: int) -> Option<u64> {
    if end == 250 {
        None
    } else if end == 0 {
        Some(0u64)
    } else {
        Some(calibration_grid()[end - 1])
    }
}

/// A mark is collected below the end of a bucket when it is below its start or in
/// it.
proof fn lemma_next_bucket(
    event: Event,
    stage: StageId,
    population: CalibrationPopulation,
    bucket: int,
)
    requires
        0 <= bucket < 250,
    ensures
        ({
            let cell = Cell::Calibration {
                stage: stage.index as usize,
                distribution: collected_in(population),
                bucket: bucket as usize,
            };
            let below = collects(event, stage, population, edge(bucket));
            &&& collects(event, stage, population, edge(bucket + 1)) <==> below || touching(
                event,
                cell,
            )
            &&& !(below && touching(event, cell))
        }),
{
    law_grids_increase();
    let grid = calibration_grid();
    if let Event::Mark { checkpoint } = event {
        if checkpoint.rejection() is None {
            law_accepted_marks_are_collected(
                checkpoint,
                stage.index as usize,
                bucket as usize,
            );
            let value = latency(checkpoint, population);
            assert(value >= 0);
            assert(lies_in(value, grid, bucket) <==> (bucket > 0 ==> grid[bucket - 1] <= value) && (
            bucket < 249 ==> value < grid[bucket]));
            if 0 < bucket < 249 {
                assert(grid[bucket - 1] < grid[bucket]);
            }
        }
    }
}

/// The counters of a population up to a bucket hold the marks that were collected
/// for it below the end of that bucket.
proof fn lemma_counters_hold_the_collected_marks(
    states: Seq<Tracegrams>,
    events: Seq<Event>,
    stage: StageId,
    population: CalibrationPopulation,
    end: int,
)
    requires
        history(states, events),
        events.len() <= u64::MAX,
        states.last().inner.wf(),
        states.last().inner.owns(stage),
        0 <= end <= 250,
    ensures
        total(collected(states.last().inner, stage, population).take(end)) == number_collected(
            events,
            stage,
            population,
            edge(end),
        ),
    decreases end,
{
    let inner = states.last().inner;
    let counts = collected(inner, stage, population);
    let whole = |event: Event| collects(event, stage, population, edge(end));
    if end == 0 {
        assert forall|event: Event| !(#[trigger] whole(event)) by {
            if let Event::Mark { checkpoint } = event {
                assert(latency(checkpoint, population) >= 0);
            }
        }
        lemma_count_of_none(events, whole);
        assert(counts.take(0) =~= Seq::empty());
    } else {
        let bucket = end - 1;
        let cell = Cell::Calibration {
            stage: stage.index as usize,
            distribution: collected_in(population),
            bucket: bucket as usize,
        };
        let first = |event: Event| collects(event, stage, population, edge(bucket));
        let second = |event: Event| touching(event, cell);
        lemma_counters_hold_the_collected_marks(states, events, stage, population, bucket);
        assert forall|event: Event| #[trigger] whole(event) <==> first(event) || second(event) by {
            lemma_next_bucket(event, stage, population, bucket);
        }
        assert forall|event: Event| !(#[trigger] first(event) && second(event)) by {
            lemma_next_bucket(event, stage, population, bucket);
        }
        lemma_counts_add(events, whole, first, second);
        law_counters_are_numbers_of_marks(states, events, cell);
        assert(counts.take(end).drop_last() =~= counts.take(bucket));
        assert(counts.take(end).last() == counts[bucket]);
    }
}

/// The report of a population in terms of the marks that were collected for it:
/// as many samples as marks, and an estimate whose rank covers the quantile of
/// their number. Fewer marks than the rank have a latency below its lower bound,
/// and at least as many have one below its upper bound; without a lower bound no
/// mark counts as below it, without an upper bound every one does.
pub open spec fn reports_collected(
    report: CalibrationPopulationReport,
    events: Seq<Event>,
    stage: StageId,
    population: CalibrationPopulation,
    bits: u64,
) -> bool {
    let all = number_collected(events, stage, population, None);
    &&& report.population == population
    &&& report.samples == all
    &&& match report.estimate {
        None => population == CalibrationPopulation::PreviousCumulative && all == 0,
        Some(found) => {
            &&& found.samples == all
            &&& covers(found.rank as int, all, bits)
            &&& match found.lower_bound {
                None => 0 < found.rank,
                Some(bound) => number_collected(events, stage, population, Some(bound))
                    < found.rank,
            }
            &&& found.rank <= number_collected(events, stage, population, found.upper_bound)
        },
    }
}

proof fn lemma_reports_are_about_the_collected_marks(
    states: Seq<Tracegrams>,
    events: Seq<Event>,
    stage: StageId,
    population: CalibrationPopulation,
    report: CalibrationPopulationReport,
)
    requires
        history(states, events),
        events.len() <= u64::MAX,
        states.last().inner.wf(),
        states.last().inner.owns(stage),
        reports(report, states.last().inner, stage, population),
    ensures
        reports_collected(
            report,
            events,
            stage,
            population,
            states.last().inner.tail_quantile,
        ),
{
    let inner = states.last().inner;
    let counts = collected(inner, stage, population);
    lemma_counters_hold_the_collected_marks(states, events, stage, population, 250);
    assert(counts.take(250) =~= counts);
    if let Some(found) = report.estimate {
        let bucket = choose|bucket: int| #[trigger]
            ranks(found, counts, inner.tail_quantile, bucket);
        lemma_counters_hold_the_collected_marks(states, events, stage, population, bucket);
        lemma_counters_hold_the_collected_marks(states, events, stage, population, bucket + 1);
    }
}

/// After any history, the report of a population of a stage is about the marks
/// that were collected for it: those accepted at that stage while collecting, with
/// a predecessor where the population is about one. There is none exactly when no
/// mark was collected for a population that every stage must have.
pub proof fn law_reports_rank_the_collected_latencies(
    states: Seq<Tracegrams>,
    events: Seq<Event>,
    stage: StageId,
    population: CalibrationPopulation,
)
    requires
        history(states, events),
        events.len() <= u64::MAX,
        states.last().inner.wf(),
        states.last().inner.owns(stage),
    ensures
        match states.last().inner.population_report(stage, population) {
            Ok(report) => reports_collected(
                report,
                events,
                stage,
                population,
                states.last().inner.tail_quantile,
            ),
            Err(error) => {
                &&& population != CalibrationPopulation::PreviousCumulative
                &&& number_collected(events, stage, population, None) == 0
                &&& error == (FreezeError::CalibrationArithmeticOverflow { stage, population })
            },
        },
{
    let inner = states.last().inner;
    let counts = collected(inner, stage, population);
    law_reports_rank_their_own_population(inner, stage, population);
    lemma_counters_hold_the_collected_marks(states, events, stage, population, 250);
    assert(counts.take(250) =~= counts);
    lemma_count_is_limited(
        events,
        |event: Event| collects(event, stage, population, None::<u64>),
    );
    if let Ok(report) = inner.population_report(stage, population) {
        lemma_reports_are_about_the_collected_marks(states, events, stage, population, report);
    }
}

/// A stage report is about the marks that were collected for its own stage, each
/// of its parts about the population of its name.
pub open spec fn reports_collected_stage(
    report: StageCalibrationReport,
    events: Seq<Event>,
    bits: u64,
) -> bool {
    let stage = report.stage;
    &&& reports_collected(report.local, events, stage, CalibrationPopulation::Local, bits)
    &&& reports_collected(
        report.cumulative_after,
        events,
        stage,
        CalibrationPopulation::CumulativeAfter,
        bits,
    )
    &&& reports_collected(
        report.previous_cumulative,
        events,
        stage,
        CalibrationPopulation::PreviousCumulative,
        bits,
    )
}

/// What a successful freeze returns, and publishes for the stage of every report,
/// ranks the latencies of the marks that were collected before it.
pub proof fn law_freezes_rank_the_collected_latencies(
    states: Seq<Tracegrams>,
    events: Seq<Event>,
    criteria: FreezeCriteria,
    report: FreezeReport,
    after: Tracegrams,
    at: int,
)
    requires
        history(states, events),
        events.len() <= u64::MAX,
        states.last().inner.wf(),
        (Event::Freeze { criteria, result: Ok::<FreezeReport, FreezeError>(report) }).leads(
            states.last(),
            after,
        ),
        0 <= at < report.stages@.len(),
    ensures
        ({
            let entry = report.stages@[at];
            let published = after.inner.frozen_calibration@[entry.stage.index as int];
            &&& reports_collected_stage(entry, events, states.last().inner.tail_quantile)
            &&& published is Some
            &&& published->0.report == entry
        }),
{
    let before = states.last().inner;
    let requested = before.requested(criteria);
    let stages = before.selected(requested);
    let entry = report.stages@[at];
    law_successful_freezes_report_and_publish_the_selected_stages(
        before,
        requested,
        criteria.minimum_samples,
        report,
        after.inner,
    );
    before.lemma_chosen(requested, before.layout.stage_count as int);
    let stage = stages[at];
    assert(before.owns(stage));
    lemma_reports_are_about_the_collected_marks(
        states,
        events,
        stage,
        CalibrationPopulation::Local,
        entry.local,
    );
    lemma_reports_are_about_the_collected_marks(
        states,
        events,
        stage,
        CalibrationPopulation::CumulativeAfter,
        entry.cumulative_after,
    );
    lemma_reports_are_about_the_collected_marks(
        states,
        events,
        stage,
        CalibrationPopulation::PreviousCumulative,
        entry.previous_cumulative,
    );
}

} // verus!
