//! Aggregate tail-latency propagation tracking without storing traces.
//!
//! Tracegrams records bounded aggregate latency transitions for a linear,
//! monotonically ordered request pipeline. A request carries a small context;
//! checkpoints update one fixed recorder without retaining the request or a
//! trace.
//!
//! # Lifecycle
//!
//! Register stages once, collect a representative warm-up population, explicitly
//! freeze its tail thresholds, then diagnose an incident-window delta:
//!
//! - [`Tracegrams::builder`] registers stages, and [`TracegramsBuilder::build`]
//!   allocates a recorder within a memory budget.
//! - [`Tracegrams::start_manual`], [`Tracegrams::record_elapsed`] and
//!   [`Tracegrams::finish_manual`] record caller-timed requests;
//!   [`Tracegrams::start`], [`Tracegrams::mark`] and [`Tracegrams::finish`] record
//!   requests that are timed by clock readings.
//! - [`Tracegrams::try_freeze_calibration`] makes the one transition from
//!   collecting to frozen.
//! - [`Tracegrams::snapshot_relaxed`] scans the counters, [`Snapshot::delta`]
//!   subtracts two scans, and [`DeltaSnapshot::diagnose`] scores a window.
//!
//! # Numbers
//!
//! Latencies are integer nanoseconds. Quantiles and policy thresholds are given
//! by the bit patterns of their binary64 values. Scores are exact integer ratios;
//! only where one is held against a policy does its binary64 quotient count.
//!
//! # Scope
//!
//! A scan is not a single-instant cut where counters change meanwhile.
//! Matrix-derived scores cover predecessor-bearing marks only and are a
//! known-drift path; calibrated-online scores also preserve clean-sentinel first
//! marks. There is one explicit calibration freeze, and pipelines are linear;
//! fan-out, retries, repeated stages and recalibration are outside the contract.

pub mod binary64;
pub mod bucket;
pub mod calibration;
pub mod checkpoint;
pub mod context;
pub mod counts;
pub mod debug;
pub mod diagnose;
pub mod freeze;
pub mod init;
pub mod laws;
pub mod layout;
pub mod matrix;
pub mod quantile;
pub mod ratio;
pub mod recorder;
pub mod scores;
pub mod snapshot;
pub mod text;

pub use calibration::{
    CalibrationConsistency, CalibrationEstimate, CalibrationPopulationReport, CalibrationReadiness,
    CalibrationTerminal, CalibrationThresholdAvailability, FreezeCriteria, FreezeError,
    FreezeReport, PopulationReadiness, StageCalibrationReadiness, StageCalibrationReport,
};
pub use checkpoint::Outcome;
pub use context::{Ctx, ManualCtx};
pub use diagnose::{Classification, DiagnoseConfig, DiagnoseError, DiagnosisReport};
pub use init::{InitError, MemoryEstimate, StageId, Tracegrams, TracegramsBuilder};
pub use ratio::Ratio;
pub use scores::{
    BucketThreshold, CalibratedOnlineScore, CalibratedOnlineScores, CalibratedThresholds,
    MatrixScore, MatrixScores, MatrixThresholds, ScorePath, ScorePopulation, ScoreStatus,
};
pub use snapshot::{
    CalibrationPopulation, CalibrationState, CompletionCounts, Consistency, DeltaError,
    DeltaSnapshot, Diagnostics, OnlineDeltaAvailability, SampleCounts, ScoreAvailability, Snapshot,
    StageMetadata,
};
