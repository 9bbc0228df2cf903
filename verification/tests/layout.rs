use tracegrams::bucket::BUCKETS;
use tracegrams::init::{claim_registry_cookie, RegistryCookie, MAX_REGISTRY_COOKIE};
use tracegrams::layout::{
    first_online_counter, predecessor_online_counter, CalibrationDistribution, Cell,
    DiagnosticCounter, FixedStorageLayout, ONLINE_COUNTERS_PER_STAGE,
};
use tracegrams::matrix::{MatrixCell, StorageLayout};

#[test]
fn offsets_are_disjoint_and_cover_the_storage_exactly_once() {
    let stages: usize = 3;
    let layout = StorageLayout::new(stages).unwrap();
    let mut visits = vec![0_u8; layout.counter_count()];
    let mut visit = |offset: usize| visits[offset] += 1;

    for stage in 0..stages {
        for bucket in 0..BUCKETS {
            visit(layout.local(stage, bucket).unwrap());
            visit(layout.cumulative(stage, bucket).unwrap());
        }
        for previous in 0..BUCKETS {
            for local in 0..BUCKETS {
                visit(layout.cause(stage, previous, local).unwrap());
            }
        }
    }
    for destination in 1..stages {
        for previous in 0..BUCKETS {
            for cumulative_after in 0..BUCKETS {
                visit(
                    layout
                        .incoming(destination, previous, cumulative_after)
                        .unwrap(),
                );
            }
        }
    }

    assert!(visits.iter().all(|visits| *visits == 1));
}

#[test]
fn cause_matrices_are_indexed_by_destination() {
    let layout = StorageLayout::new(3).unwrap();

    assert_eq!(
        layout.cause(2, 0, 0).unwrap() - layout.cause(1, 0, 0).unwrap(),
        BUCKETS * BUCKETS
    );
}

#[test]
fn incoming_matrices_are_indexed_by_destination_minus_one() {
    let layout = StorageLayout::new(3).unwrap();

    assert_eq!(layout.incoming(0, 0, 0), None);
    assert_eq!(
        layout.incoming(2, 0, 0).unwrap() - layout.incoming(1, 0, 0).unwrap(),
        BUCKETS * BUCKETS
    );
    assert_eq!(layout.incoming(3, 0, 0), None);
}

#[test]
fn checked_layout_arithmetic_covers_the_maximum_stage_count() {
    let six = StorageLayout::new(6).unwrap();
    assert_eq!(six.counter_count(), 45_824);
    assert_eq!(six.counter_bytes(), Some(366_592));

    let max = StorageLayout::new(64).unwrap();
    assert_eq!(max.counter_count(), 528_384);
    assert_eq!(max.counter_bytes(), Some(4_227_072));
    assert_eq!(StorageLayout::new(0), None);
    assert_eq!(StorageLayout::new(usize::MAX), None);
}

#[test]
fn every_index_dimension_is_checked() {
    let layout = StorageLayout::new(2).unwrap();

    assert_eq!(layout.local(2, 0), None);
    assert_eq!(layout.local(0, BUCKETS), None);
    assert_eq!(layout.cumulative(2, 0), None);
    assert_eq!(layout.cause(2, 0, 0), None);
    assert_eq!(layout.cause(0, BUCKETS, 0), None);
    assert_eq!(layout.cause(0, 0, BUCKETS), None);
    assert_eq!(layout.incoming(1, BUCKETS, 0), None);
    assert_eq!(layout.incoming(1, 0, BUCKETS), None);
}

#[test]
fn fixed_layout_segments_are_contiguous() {
    let layout = FixedStorageLayout::new(6).unwrap();

    assert_eq!(layout.matrix_counter_bytes(), Some(366_592));
    assert_eq!(layout.calibration_counter_count(), 6 * 3 * 250);
    assert_eq!(layout.online_counter_count(), 6 * 12);
    assert_eq!(layout.completion_start, layout.online_start + 6 * 12);
    assert_eq!(layout.completion_counter_count(), 6 * 2);
    assert_eq!(layout.diagnostic_start, layout.completion_start + 6 * 2);
    assert_eq!(layout.counter_count(), layout.diagnostic_start + 8);
}

#[test]
fn checked_fixed_layout_covers_the_maximum_stage_count() {
    let layout = FixedStorageLayout::new(64).unwrap();

    assert_eq!(layout.matrix_counter_bytes(), Some(4_227_072));
    assert_eq!(layout.calibration_counter_count(), 48_000);
    assert_eq!(layout.online_counter_count(), 768);
    assert_eq!(layout.completion_counter_count(), 128);
    assert_eq!(layout.counter_count(), 577_288);
    assert_eq!(FixedStorageLayout::new(0), None);
    assert_eq!(FixedStorageLayout::new(usize::MAX), None);
}

#[test]
fn online_truth_table_cells_are_disjoint_and_complete() {
    let mut cells = Vec::new();
    for local_tail in [false, true] {
        for cumulative_after_tail in [false, true] {
            cells.push(first_online_counter(local_tail, cumulative_after_tail));
        }
    }
    for previous_tail in [false, true] {
        for local_tail in [false, true] {
            for cumulative_after_tail in [false, true] {
                cells.push(predecessor_online_counter(
                    previous_tail,
                    local_tail,
                    cumulative_after_tail,
                ));
            }
        }
    }
    cells.sort_unstable();

    assert_eq!(cells, (0..ONLINE_COUNTERS_PER_STAGE).collect::<Vec<_>>());
}

#[test]
fn cookie_allocation_never_wraps() {
    let mut source = MAX_REGISTRY_COOKIE;

    assert_eq!(
        claim_registry_cookie(&mut source),
        Some(RegistryCookie(u32::MAX))
    );
    assert_eq!(claim_registry_cookie(&mut source), None);
    assert_eq!(source, MAX_REGISTRY_COOKIE + 1);
}

#[test]
fn every_counter_of_a_fixed_layout_has_a_place_of_its_own() {
    let layout = FixedStorageLayout::new(2).unwrap();
    let mut visits = vec![0_u8; layout.counter_count()];
    let mut cells: Vec<Cell> = Vec::new();
    for stage in 0..2 {
        for bucket in 0..BUCKETS {
            cells.push(Cell::Matrix(MatrixCell::Local { stage, bucket }));
            cells.push(Cell::Matrix(MatrixCell::Cumulative { stage, bucket }));
            for other in 0..BUCKETS {
                cells.push(Cell::Matrix(MatrixCell::Cause {
                    destination: stage,
                    previous: bucket,
                    local: other,
                }));
                if stage == 1 {
                    cells.push(Cell::Matrix(MatrixCell::Incoming {
                        destination: stage,
                        previous: bucket,
                        after: other,
                    }));
                }
            }
        }
        for distribution in [
            CalibrationDistribution::Local,
            CalibrationDistribution::CumulativeAfter,
            CalibrationDistribution::PreviousCumulative,
        ] {
            for bucket in 0..250 {
                cells.push(Cell::Calibration {
                    stage,
                    distribution,
                    bucket,
                });
            }
        }
        for counter in 0..ONLINE_COUNTERS_PER_STAGE {
            cells.push(Cell::Online { stage, counter });
        }
        for error in [false, true] {
            cells.push(Cell::Completion { stage, error });
        }
    }
    for diagnostic in [
        DiagnosticCounter::InvalidStageMarks,
        DiagnosticCounter::InvalidContextMarks,
        DiagnosticCounter::NonMonotonicMarks,
        DiagnosticCounter::ClockRegressions,
        DiagnosticCounter::LatencyOverflows,
        DiagnosticCounter::CumulativeOverflows,
        DiagnosticCounter::CalibrationSamplesSkippedWhileFreezing,
        DiagnosticCounter::OnlineSamplesSkippedMissingPreviousThreshold,
    ] {
        cells.push(Cell::Diagnostic(diagnostic));
    }
    for cell in cells {
        visits[layout.find(cell).unwrap()] += 1;
    }
    assert!(visits.iter().all(|visits| *visits == 1));

    assert_eq!(
        layout.find(Cell::Online {
            stage: 2,
            counter: 0
        }),
        None
    );
    assert_eq!(
        layout.find(Cell::Completion {
            stage: 2,
            error: true
        }),
        None
    );
}
