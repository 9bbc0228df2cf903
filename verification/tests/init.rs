//! Registration, memory estimates and recorder construction.

use tracegrams::bucket::{calibration_bounds, default_bounds};
use tracegrams::init::{
    estimate_memory, DEFAULT_MEMORY_BUDGET_BYTES, DEFAULT_TAIL_QUANTILE, FIRST_REGISTRY_COOKIE,
};
use tracegrams::layout::FixedStorageLayout;
use tracegrams::{InitError, Tracegrams, TracegramsBuilder};

fn assert_send_sync<T: Send + Sync>(_: &T) {}

#[test]
fn readme_style_initialization_builds_a_shared_handle() -> Result<(), InitError> {
    let mut cookies: u64 = FIRST_REGISTRY_COOKIE;
    let mut builder = Tracegrams::builder(&mut cookies);
    let parse = builder.stage("parse")?;
    let db = builder.stage("db")?;
    let render = builder.stage("render")?;
    assert_ne!(parse, db);
    assert_ne!(db, render);

    builder.tail_quantile(0.99_f64.to_bits())?;
    builder.memory_budget_bytes(8 * 1024 * 1024);
    let tracegrams = std::sync::Arc::new(builder.build()?);
    let cloned = tracegrams.clone();

    assert_send_sync(&tracegrams);
    assert_send_sync(&cloned);
    Ok(())
}

#[test]
fn one_six_and_sixty_four_stage_registries_fit_the_default_budget() {
    let mut cookies: u64 = FIRST_REGISTRY_COOKIE;
    for stage_count in [1, 6, 64] {
        let mut builder = Tracegrams::builder(&mut cookies);
        for stage in 0..stage_count {
            builder.stage(&format!("stage-{stage}")).unwrap();
        }

        let estimate = builder.estimated_memory().unwrap();
        assert!(estimate.total_bytes() <= 8 * 1024 * 1024);
        builder.build().unwrap();
    }
}

#[test]
fn stage_names_are_non_empty_and_unique() {
    let mut cookies: u64 = FIRST_REGISTRY_COOKIE;
    let mut builder = Tracegrams::builder(&mut cookies);
    assert_eq!(builder.stage(""), Err(InitError::EmptyStageName));

    builder.stage("db").unwrap();
    assert_eq!(
        builder.stage("db"),
        Err(InitError::DuplicateStageName {
            name: "db".to_owned(),
        })
    );
}

#[test]
fn stage_count_must_be_between_one_and_sixty_four() {
    let mut cookies: u64 = FIRST_REGISTRY_COOKIE;
    assert!(matches!(
        Tracegrams::builder(&mut cookies).build(),
        Err(InitError::NoStages)
    ));

    let mut builder = Tracegrams::builder(&mut cookies);
    for stage in 0..64 {
        builder.stage(&format!("stage-{stage}")).unwrap();
    }
    assert_eq!(
        builder.stage("stage-64"),
        Err(InitError::TooManyStages { maximum: 64 })
    );
}

#[test]
fn tail_quantile_must_be_finite_and_in_range() {
    let mut cookies: u64 = FIRST_REGISTRY_COOKIE;
    for quantile in [
        f64::NAN,
        f64::NEG_INFINITY,
        f64::INFINITY,
        -1.0,
        0.0,
        1.000_001,
    ] {
        let mut builder = Tracegrams::builder(&mut cookies);
        assert!(matches!(
            builder.tail_quantile(quantile.to_bits()),
            Err(InitError::InvalidTailQuantile { .. })
        ));
    }

    let mut builder = Tracegrams::builder(&mut cookies);
    builder.stage("only").unwrap();
    builder.tail_quantile(1.0_f64.to_bits()).unwrap();
    builder.build().unwrap();
}

#[test]
fn memory_estimate_is_itemized_and_pins_the_matrix_formula() {
    let mut cookies: u64 = FIRST_REGISTRY_COOKIE;
    let mut builder = Tracegrams::builder(&mut cookies);
    for name in ["accept", "parse", "cache", "db", "render", "write"] {
        builder.stage(name).unwrap();
    }

    let estimate = builder.estimated_memory().unwrap();
    assert_eq!(estimate.matrix_bytes(), 366_592);
    assert_eq!(estimate.calibration_bytes(), 6 * 6_000);
    assert!(estimate.online_bytes() > 0);
    assert!(estimate.bounds_bytes() > 0);
    assert!(estimate.stage_metadata_bytes() > 0);
    assert_eq!(estimate.completion_bytes(), 6 * 2 * 8);
    assert!(estimate.diagnostics_bytes() > 0);
    assert!(estimate.recorder_metadata_bytes() > 0);
    assert_eq!(
        estimate.total_bytes(),
        estimate.matrix_bytes()
            + estimate.calibration_bytes()
            + estimate.online_bytes()
            + estimate.bounds_bytes()
            + estimate.stage_metadata_bytes()
            + estimate.completion_bytes()
            + estimate.diagnostics_bytes()
            + estimate.recorder_metadata_bytes()
    );
}

#[test]
fn build_rejects_an_estimate_above_the_budget() {
    let mut cookies: u64 = FIRST_REGISTRY_COOKIE;
    let mut builder = Tracegrams::builder(&mut cookies);
    builder.stage("only").unwrap();
    let required = builder.estimated_memory().unwrap().total_bytes();
    builder.memory_budget_bytes(required - 1);

    assert!(matches!(
        builder.build(),
        Err(InitError::MemoryBudgetExceeded {
            required: actual_required,
            budget,
        }) if actual_required == required && budget == required - 1
    ));
}

#[test]
fn registration_order_defines_dense_ids_and_cookie_brands_them() {
    let mut cookies: u64 = FIRST_REGISTRY_COOKIE;
    let mut first = Tracegrams::builder(&mut cookies);
    let first_a = first.stage("a").unwrap();
    let first_b = first.stage("b").unwrap();
    let mut second = Tracegrams::builder(&mut cookies);
    let second_a = second.stage("a").unwrap();

    assert_eq!(first_a.index, 0);
    assert_eq!(first_b.index, 1);
    assert_eq!(second_a.index, 0);
    assert_ne!(first_a.cookie, second_a.cookie);
}

#[test]
fn exhausted_builder_returns_the_typed_error() {
    let mut builder = TracegramsBuilder {
        cookie: None,
        stage_names: Vec::new(),
        tail_quantile: DEFAULT_TAIL_QUANTILE,
        memory_budget_bytes: DEFAULT_MEMORY_BUDGET_BYTES,
    };

    assert_eq!(
        builder.stage("stage"),
        Err(InitError::RegistryCookieExhausted)
    );
    assert!(matches!(
        builder.build(),
        Err(InitError::RegistryCookieExhausted)
    ));
}

#[test]
fn artificial_metadata_size_overflow_is_typed() {
    let layout = FixedStorageLayout::new(1).unwrap();

    assert_eq!(
        estimate_memory(layout, &[usize::MAX]),
        Err(InitError::SizeOverflow)
    );
}

#[test]
fn storage_is_fixed_at_construction() {
    let mut cookies: u64 = FIRST_REGISTRY_COOKIE;
    let mut builder = Tracegrams::builder(&mut cookies);
    for name in ["parse", "db", "render"] {
        builder.stage(name).unwrap();
    }
    let tracegrams = builder.build().unwrap();

    assert_eq!(tracegrams.inner.stage_names.len(), 3);
    assert_eq!(
        tracegrams.inner.default_bounds.len(),
        default_bounds().len()
    );
    assert_eq!(
        tracegrams.inner.calibration_bounds.len(),
        calibration_bounds().len()
    );
    assert_eq!(
        tracegrams.inner.counters.len(),
        tracegrams.inner.layout.counter_count()
    );
}

#[test]
fn default_configuration_is_the_documented_one() {
    assert_eq!(f64::from_bits(DEFAULT_TAIL_QUANTILE), 0.99);
    assert_eq!(DEFAULT_MEMORY_BUDGET_BYTES, 8 * 1024 * 1024);
}

#[test]
fn a_rejected_quantile_or_name_leaves_the_builder_as_it_was() {
    let mut cookies: u64 = FIRST_REGISTRY_COOKIE;
    let mut builder = Tracegrams::builder(&mut cookies);
    builder.stage("only").unwrap();
    builder.tail_quantile(0.5_f64.to_bits()).unwrap();
    assert_eq!(
        builder.tail_quantile(1.5_f64.to_bits()).err(),
        Some(InitError::InvalidTailQuantile {
            value: 1.5_f64.to_bits()
        })
    );
    assert!(builder.stage("only").is_err());
    assert_eq!(builder.tail_quantile, 0.5_f64.to_bits());
    assert_eq!(builder.stage_names, [Box::<str>::from("only")]);
}

#[test]
fn stage_metadata_counts_a_boxed_header_and_the_bytes_of_each_name() {
    let mut cookies: u64 = FIRST_REGISTRY_COOKIE;
    let names = ["parse", "d\u{e9}code", "db"];
    let mut builder = Tracegrams::builder(&mut cookies);
    for name in names {
        builder.stage(name).unwrap();
    }
    let bytes: usize = names.iter().map(|name| name.len()).sum();
    let estimate = builder.estimated_memory().unwrap();
    assert_eq!(bytes, 14);
    assert_eq!(
        estimate.stage_metadata_bytes(),
        3 * std::mem::size_of::<Box<str>>() + bytes
    );

    let required = estimate.total_bytes();
    builder.memory_budget_bytes(required);
    let tracegrams = builder.build().unwrap();
    let snapshot = tracegrams.snapshot_relaxed();
    let shown: Vec<&str> = snapshot.stages().iter().map(|stage| stage.name()).collect();
    assert_eq!(shown, names);
}

#[test]
fn names_are_duplicates_only_when_every_byte_agrees() {
    let mut cookies: u64 = FIRST_REGISTRY_COOKIE;
    let mut builder = Tracegrams::builder(&mut cookies);
    for name in ["db", "dB", "db ", "d", "d\u{e9}"] {
        builder.stage(name).unwrap();
    }
    assert_eq!(
        builder.stage("d\u{e9}"),
        Err(InitError::DuplicateStageName {
            name: "d\u{e9}".to_string()
        })
    );
}
