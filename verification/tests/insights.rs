use chrono::Utc;
use stellar_fee_tracker::insights::calculator::{AverageConfig, RollingAverageCalculator};
use stellar_fee_tracker::insights::engine::{
    create_default_extremes, estimate_expected_data_points, has_data_gaps, ingest_fee_data_at,
    validate_fee_data, validate_fee_data_at,
};
use stellar_fee_tracker::insights::tracker::{ExtremesConfig, ExtremesTracker};
use stellar_fee_tracker::insights::types::{
    AverageResult, FeeDataPoint, InsightsError, TimeWindow, MILLIS_PER_HOUR, MILLIS_PER_MINUTE,
};

const SECOND: i64 = 1_000;

fn window(name: &str, duration: i64, min_samples: usize) -> TimeWindow {
    TimeWindow { name: name.to_string(), duration, min_samples }
}

fn standard_windows(short: i64, min_samples: usize) -> Vec<TimeWindow> {
    vec![
        window("short_term", short, min_samples),
        window("medium_term", 6 * MILLIS_PER_HOUR, min_samples),
        window("long_term", 24 * MILLIS_PER_HOUR, min_samples),
    ]
}

fn point(fee_amount: u64, timestamp: i64, hash: &str, ledger_sequence: u64) -> FeeDataPoint {
    FeeDataPoint { fee_amount, timestamp, transaction_hash: hash.to_string(), ledger_sequence }
}

/// The average as the engine reports it: sum over count, 0 for an empty window.
fn value(r: &AverageResult) -> f64 {
    if r.sample_count == 0 {
        0.0
    } else {
        r.total_fee as f64 / r.sample_count as f64
    }
}

fn now_ms() -> i64 {
    Utc::now().timestamp_millis()
}

// --- rolling averages -------------------------------------------------------

#[test]
fn test_rolling_average_calculator_creation() {
    let config = AverageConfig::default();
    let time_windows = vec![window("test", MILLIS_PER_HOUR, 5)];
    let calculator = RollingAverageCalculator::new(config, time_windows);
    assert_eq!(calculator.get_sample_count(&window("test", MILLIS_PER_HOUR, 5)), 0);
}

#[test]
fn test_rolling_average_basic_calculation() {
    let mut calculator =
        RollingAverageCalculator::new(AverageConfig::default(), standard_windows(MILLIS_PER_HOUR, 2));
    let now = now_ms();
    calculator.add_data_point(point(100, now - 30 * MILLIS_PER_MINUTE, "hash1", 1));
    calculator.add_data_point(point(200, now - 15 * MILLIS_PER_MINUTE, "hash2", 2));

    let averages = calculator.calculate_averages().unwrap();
    assert_eq!(value(&averages.short_term), 150.0);
    assert_eq!(averages.short_term.sample_count, 2);
    assert!(!averages.short_term.is_partial);
}

#[test]
fn test_rolling_average_partial_results() {
    let mut calculator =
        RollingAverageCalculator::new(AverageConfig::default(), standard_windows(MILLIS_PER_HOUR, 5));
    let now = now_ms();
    calculator.add_data_point(point(100, now - 30 * MILLIS_PER_MINUTE, "hash1", 1));
    calculator.add_data_point(point(200, now - 15 * MILLIS_PER_MINUTE, "hash2", 2));

    let averages = calculator.calculate_averages().unwrap();
    assert!(averages.short_term.is_partial);
    assert_eq!(averages.short_term.sample_count, 2);
}

#[test]
fn test_rolling_average_time_window_expiration() {
    let mut calculator = RollingAverageCalculator::new(
        AverageConfig::default(),
        standard_windows(30 * MILLIS_PER_MINUTE, 1),
    );
    let now = now_ms();
    calculator.add_data_point(point(100, now - 2 * MILLIS_PER_HOUR, "hash1", 1));
    calculator.add_data_point(point(200, now - 15 * MILLIS_PER_MINUTE, "hash2", 2));

    let averages = calculator.calculate_averages().unwrap();
    assert_eq!(value(&averages.short_term), 200.0);
    assert_eq!(averages.short_term.sample_count, 1);
}

#[test]
fn test_circular_buffer_capacity_limit() {
    let config = AverageConfig { max_buffer_size: 3, min_samples_for_calculation: 1 };
    let mut calculator = RollingAverageCalculator::new(config, standard_windows(MILLIS_PER_HOUR, 1));
    let now = now_ms();
    for i in 0..5u64 {
        calculator.add_data_point(point(
            (i + 1) * 100,
            now - (i as i64) * 5 * MILLIS_PER_MINUTE,
            &format!("hash{}", i),
            i + 1,
        ));
    }

    let averages = calculator.calculate_averages().unwrap();
    assert_eq!(averages.short_term.sample_count, 3);
    assert_eq!(value(&averages.short_term), 400.0);
}

#[test]
fn test_rolling_average_empty_dataset() {
    let calculator =
        RollingAverageCalculator::new(AverageConfig::default(), standard_windows(MILLIS_PER_HOUR, 1));
    let averages = calculator.calculate_averages().unwrap();
    assert_eq!(value(&averages.short_term), 0.0);
    assert_eq!(averages.short_term.sample_count, 0);
    assert!(averages.short_term.is_partial);
}

#[test]
fn test_large_number_accuracy() {
    let mut calculator =
        RollingAverageCalculator::new(AverageConfig::default(), standard_windows(MILLIS_PER_HOUR, 1));
    let now = now_ms();
    calculator.add_data_point(point(999_999_999, now - 30 * MILLIS_PER_MINUTE, "hash1", 1));
    calculator.add_data_point(point(999_999_998, now - 15 * MILLIS_PER_MINUTE, "hash2", 2));

    let averages = calculator.calculate_averages().unwrap();
    let expected_average = (999_999_999.0 + 999_999_998.0) / 2.0;
    assert_eq!(value(&averages.short_term), expected_average);
    assert_eq!(averages.short_term.total_fee, 1_999_999_997);
}

#[test]
fn missing_standard_window_is_reported() {
    let calculator = RollingAverageCalculator::new(
        AverageConfig::default(),
        vec![window("short_term", MILLIS_PER_HOUR, 1), window("long_term", MILLIS_PER_HOUR, 1)],
    );
    match calculator.calculate_averages() {
        Err(InsightsError::Config(m)) => assert_eq!(m, "Time window 'medium_term' not found"),
        other => panic!("unexpected result: {:?}", other),
    }
}

#[test]
fn window_average_and_sufficiency() {
    let windows = standard_windows(MILLIS_PER_HOUR, 2);
    let mut calculator = RollingAverageCalculator::new(AverageConfig::default(), windows.clone());
    let now = now_ms();
    calculator.add_data_point_at(point(300, now - MILLIS_PER_MINUTE, "a", 1), now);
    assert!(!calculator.has_sufficient_data(&windows[0]));
    calculator.add_data_point_at(point(500, now, "b", 2), now);
    assert!(calculator.has_sufficient_data(&windows[0]));
    let avg = calculator.get_average_for_window_at(&windows[0], now).unwrap();
    assert_eq!(avg.total_fee, 800);
    assert_eq!(avg.sample_count, 2);
    assert_eq!(avg.calculated_at, now);
    assert!(calculator.get_average_for_window(&window("other", 1, 1)).is_none());
}

// --- extremes ---------------------------------------------------------------

#[test]
fn test_extremes_tracker_creation() {
    let tracker = ExtremesTracker::new(ExtremesConfig::default());
    assert!(!tracker.has_current_data());
}

#[test]
fn test_extremes_identification() {
    let mut tracker = ExtremesTracker::new(ExtremesConfig::default());
    let now = now_ms();
    let fee_data = vec![point(150, now, "hash1", 1), point(50, now, "hash2", 2), point(300, now, "hash3", 3)];

    tracker.update_with_fees(&fee_data).unwrap();
    let extremes = tracker.get_current_extremes().unwrap();
    assert_eq!(extremes.current_min.value, 50);
    assert_eq!(extremes.current_min.transaction_hash, "hash2");
    assert_eq!(extremes.current_max.value, 300);
    assert_eq!(extremes.current_max.transaction_hash, "hash3");
}

#[test]
fn test_extremes_tie_breaking() {
    let mut tracker = ExtremesTracker::new(ExtremesConfig::default());
    let now = now_ms();
    let fee_data = vec![point(100, now - SECOND, "hash1", 1), point(100, now, "hash2", 2)];

    tracker.update_with_fees(&fee_data).unwrap();
    let extremes = tracker.get_current_extremes().unwrap();
    assert_eq!(extremes.current_min.value, 100);
    assert_eq!(extremes.current_min.transaction_hash, "hash2");
}

#[test]
fn test_extremes_metadata_preservation() {
    let mut tracker = ExtremesTracker::new(ExtremesConfig::default());
    let now = now_ms();
    let fee_data = vec![point(200, now, "test_hash_123", 12345)];

    tracker.update_with_fees(&fee_data).unwrap();
    let extremes = tracker.get_current_extremes().unwrap();
    assert_eq!(extremes.current_min.transaction_hash, "test_hash_123");
    assert_eq!(extremes.current_max.transaction_hash, "test_hash_123");
    assert_eq!(extremes.current_min.timestamp, now);
    assert_eq!(extremes.current_max.timestamp, now);
}

#[test]
fn extremes_ignore_fees_outside_the_period() {
    let config = ExtremesConfig { tracking_period: MILLIS_PER_HOUR, historical_periods_to_keep: 2 };
    let start = 1_700_000_000_000;
    let mut tracker = ExtremesTracker::new_at(config, start);
    let fees = vec![
        point(10, start - 1, "before", 1),
        point(70, start, "first", 2),
        point(90, start + MILLIS_PER_HOUR, "last", 3),
        point(5, start + MILLIS_PER_HOUR + 1, "after", 4),
    ];
    tracker.update_with_fees_at(&fees, start + 10).unwrap();
    let e = tracker.get_current_extremes().unwrap();
    assert_eq!((e.current_min.value, e.current_max.value), (70, 90));
    assert_eq!((e.period_start, e.period_end), (start, start + MILLIS_PER_HOUR));
}

#[test]
fn extremes_rotate_to_a_new_period() {
    let config = ExtremesConfig { tracking_period: MILLIS_PER_HOUR, historical_periods_to_keep: 2 };
    let start = 1_700_000_000_000;
    let mut tracker = ExtremesTracker::new_at(config, start);
    tracker.update_with_fees_at(&[point(40, start + 5, "old", 1)], start + 10).unwrap();
    let later = start + 2 * MILLIS_PER_HOUR;
    tracker.update_with_fees_at(&[point(60, later, "new", 2)], later).unwrap();
    let e = tracker.get_current_extremes().unwrap();
    assert_eq!(e.current_min.transaction_hash, "new");
    assert_eq!(e.period_start, later);
    assert_eq!(e.period_end, later + MILLIS_PER_HOUR);
}

#[test]
fn empty_period_has_no_extremes() {
    let tracker = ExtremesTracker::new(ExtremesConfig::default());
    match tracker.get_current_extremes() {
        Err(InsightsError::InsufficientData(m)) => {
            assert_eq!(m, "No fee data available for current period")
        }
        other => panic!("unexpected result: {:?}", other),
    }
}

// --- validation ---------------------------------------------------------------

#[test]
fn test_fee_amount_validation() {
    let invalid_data = vec![point(0, now_ms(), "hash1", 1)];
    let result = validate_fee_data(&invalid_data);
    assert!(result.is_err());
    assert!(result.unwrap_err().to_string().contains("Zero fee amount"));

    let invalid_data = vec![point(2_000_000_000, now_ms(), "hash1", 1)];
    let result = validate_fee_data(&invalid_data);
    assert!(result.is_err());
    assert!(result.unwrap_err().to_string().contains("Unreasonably large fee amount"));

    let valid_data = vec![point(100, now_ms(), "hash1", 1)];
    assert!(validate_fee_data(&valid_data).is_ok());
}

#[test]
fn test_timestamp_validation() {
    let invalid_data = vec![point(100, now_ms() + 2 * MILLIS_PER_HOUR, "hash1", 1)];
    let result = validate_fee_data(&invalid_data);
    assert!(result.is_err());
    assert!(result.unwrap_err().to_string().contains("Future timestamp"));

    let valid_data = vec![point(100, now_ms() - 30 * MILLIS_PER_MINUTE, "hash1", 1)];
    assert!(validate_fee_data(&valid_data).is_ok());
}

#[test]
fn test_transaction_hash_validation() {
    let invalid_data = vec![point(100, now_ms(), "", 1)];
    let result = validate_fee_data(&invalid_data);
    assert!(result.is_err());
    assert!(result.unwrap_err().to_string().contains("Empty transaction hash"));

    let valid_data = vec![point(100, now_ms(), "valid_hash_123", 1)];
    assert!(validate_fee_data(&valid_data).is_ok());
}

#[test]
fn validation_messages_name_the_position() {
    let now = 1_700_000_000_000;
    let data = vec![point(5, now, "ok", 1), point(1_000_000_001, now, "big", 2)];
    let e = validate_fee_data_at(&data, now).unwrap_err();
    assert_eq!(e.to_string(), "Unreasonably large fee amount 1000000001 at index 1");

    let data = vec![point(5, now, "ok", 1), point(5, now, "", 2), point(0, now, "z", 3)];
    assert_eq!(
        validate_fee_data_at(&data, now).unwrap_err().to_string(),
        "Empty transaction hash at index 1"
    );

    let data = vec![point(5, now + MILLIS_PER_HOUR + 1, "late", 1)];
    assert_eq!(
        validate_fee_data_at(&data, now).unwrap_err().to_string(),
        "Future timestamp at index 0: 2023-11-14 23:13:20.001 UTC"
    );
    // exactly one hour ahead is still accepted
    assert!(validate_fee_data_at(&[point(5, now + MILLIS_PER_HOUR, "edge", 1)], now).is_ok());
    assert!(validate_fee_data_at(&[point(1_000_000_000, now, "max", 1)], now).is_ok());
}

// --- data quality ---------------------------------------------------------------

#[test]
fn gaps_are_empty_data_or_stale_points() {
    let t = 1_700_000_000_000;
    assert!(has_data_gaps(&[], t));
    assert!(!has_data_gaps(&[point(1, t - MILLIS_PER_HOUR, "a", 1)], t));
    assert!(has_data_gaps(&[point(1, t, "a", 1), point(1, t - MILLIS_PER_HOUR - 1, "b", 2)], t));
}

#[test]
fn expected_points_count_polling_intervals() {
    let t = 1_700_000_000_000;
    assert_eq!(estimate_expected_data_points(None, t, 5 * SECOND), 1);
    assert_eq!(estimate_expected_data_points(Some(t - 60 * SECOND), t, 5 * SECOND), 12);
    assert_eq!(estimate_expected_data_points(Some(t - 2 * SECOND), t, 5 * SECOND), 1);
    assert_eq!(estimate_expected_data_points(Some(t - 59_999), t, 10 * SECOND), 5);
}

#[test]
fn default_extremes_use_the_base_fee() {
    let e = create_default_extremes(42);
    assert_eq!(e.current_min.value, 100);
    assert_eq!(e.current_max.value, 100);
    assert_eq!(e.current_min.transaction_hash, "unknown");
    assert_eq!((e.period_start, e.period_end, e.current_min.timestamp), (42, 42, 42));
}

#[test]
fn tied_minimum_keeps_the_latest_and_tied_maximum_the_first() {
    let config = ExtremesConfig { tracking_period: MILLIS_PER_HOUR, historical_periods_to_keep: 2 };
    let start = 1_700_000_000_000;
    let mut tracker = ExtremesTracker::new_at(config, start);
    let fees = vec![point(100, start + SECOND, "hash1", 1), point(100, start + 2 * SECOND, "hash2", 2)];
    tracker.update_with_fees_at(&fees, start + 3 * SECOND).unwrap();
    let e = tracker.get_current_extremes().unwrap();
    assert_eq!(e.current_min.value, 100);
    assert_eq!(e.current_min.transaction_hash, "hash2");
    assert_eq!(e.current_max.transaction_hash, "hash1");
}

#[test]
fn rotation_starts_a_new_period_and_folds_its_fees() {
    let config = ExtremesConfig { tracking_period: MILLIS_PER_HOUR, historical_periods_to_keep: 1 };
    let start = 1_700_000_000_000;
    let mut tracker = ExtremesTracker::new_at(config, start);
    tracker.update_with_fees_at(&[point(70, start + 5, "old", 1)], start + 10).unwrap();
    let later = start + 2 * MILLIS_PER_HOUR;
    let fees = vec![point(999, start + 6, "stale", 2), point(40, later + 5, "new_low", 3), point(60, later + 9, "new_high", 4)];
    tracker.update_with_fees_at(&fees, later).unwrap();
    let e = tracker.get_current_extremes().unwrap();
    assert_eq!((e.period_start, e.period_end), (later, later + MILLIS_PER_HOUR));
    assert_eq!(e.current_min.transaction_hash, "new_low");
    assert_eq!(e.current_max.transaction_hash, "new_high");
}

#[test]
fn stale_points_behind_newer_ones_are_dropped() {
    let windows = vec![window("short_term", MILLIS_PER_HOUR, 1)];
    let mut calculator = RollingAverageCalculator::new(AverageConfig::default(), windows.clone());
    let now = 1_700_000_000_000;
    calculator.add_data_point_at(point(500, now - 10 * MILLIS_PER_MINUTE, "recent", 1), now);
    calculator.add_data_point_at(point(300, now - 50 * MILLIS_PER_MINUTE, "older", 2), now);
    assert_eq!(calculator.get_sample_count(&windows[0]), 2);
    // Forty minutes later the second point has left the window although it sits behind
    // one that has not.
    let later = now + 20 * MILLIS_PER_MINUTE;
    calculator.add_data_point_at(point(100, later, "newest", 3), later);
    assert_eq!(calculator.get_sample_count(&windows[0]), 2);
    let avg = calculator.get_average_for_window_at(&windows[0], later).unwrap();
    assert_eq!(avg.total_fee, 600);
    assert_eq!(avg.sample_count, 2);
}

#[test]
fn a_processing_round_feeds_averages_and_extremes() {
    let now = 1_700_000_000_000;
    let mut calculator =
        RollingAverageCalculator::new(AverageConfig::default(), standard_windows(MILLIS_PER_HOUR, 1));
    let mut tracker = ExtremesTracker::new_at(ExtremesConfig::default(), now - 10 * MILLIS_PER_MINUTE);

    match ingest_fee_data_at(&mut calculator, &mut tracker, &[], now) {
        Err(InsightsError::InvalidData(m)) => assert_eq!(m, "No fee data provided"),
        other => panic!("unexpected result: {:?}", other),
    }
    match ingest_fee_data_at(&mut calculator, &mut tracker, &[point(0, now, "zero", 1)], now) {
        Err(InsightsError::InvalidData(m)) => assert_eq!(m, "Zero fee amount at index 0"),
        other => panic!("unexpected result: {:?}", other),
    }
    assert!(!tracker.has_current_data());

    let data = vec![point(100, now - MILLIS_PER_MINUTE, "a", 1), point(300, now, "b", 2)];
    let averages = ingest_fee_data_at(&mut calculator, &mut tracker, &data, now).unwrap();
    assert_eq!(averages.short_term.total_fee, 400);
    assert_eq!(averages.short_term.sample_count, 2);
    assert_eq!(averages.medium_term.calculated_at, now);
    let e = tracker.get_current_extremes().unwrap();
    assert_eq!((e.current_min.value, e.current_max.value), (100, 300));
}
