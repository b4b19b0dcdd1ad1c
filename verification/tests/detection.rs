use stellar_fee_tracker::alerts::{
    meets_threshold, severity_rank, severity_to_str, spike_identity, spikes_to_dispatch, AlertCandidate,
    SeenSpikes,
};
use stellar_fee_tracker::insights::detector::{
    calculate_trend_strength, count_expired_spikes, detect_spike_runs, determine_trend_indicator,
    predict_duration, RatioShift, SpikeRun,
};
use stellar_fee_tracker::insights::types::{
    FeeDataPoint, SpikeSeverity, TrendIndicator, TrendStrength, MILLIS_PER_MINUTE,
};

fn point(fee_amount: u64, timestamp: i64, hash: &str) -> FeeDataPoint {
    FeeDataPoint { fee_amount, timestamp, transaction_hash: hash.to_string(), ledger_sequence: 1 }
}

/// Whether each fee reaches `baseline * multiplier`, as the detector decides it.
fn above(fees: &[FeeDataPoint], baseline: f64, multiplier: f64) -> Vec<bool> {
    fees.iter().map(|p| p.fee_amount as f64 >= baseline * multiplier).collect()
}

#[test]
fn spike_run_is_closed_by_a_normal_fee() {
    let now = 1_700_000_000_000;
    let fees = vec![
        point(100, now - 30 * MILLIS_PER_MINUTE, "hash1"),
        point(250, now - 20 * MILLIS_PER_MINUTE, "hash2"),
        point(300, now - 15 * MILLIS_PER_MINUTE, "hash3"),
        point(100, now - 10 * MILLIS_PER_MINUTE, "hash4"),
    ];
    let flags = above(&fees, 100.0, 2.0);
    let runs = detect_spike_runs(&fees, &flags, MILLIS_PER_MINUTE);
    assert_eq!(
        runs,
        vec![SpikeRun { peak_fee: 300, start_time: now - 20 * MILLIS_PER_MINUTE, duration: 10 * MILLIS_PER_MINUTE }]
    );
}

#[test]
fn spike_runs_are_taken_in_time_order() {
    let fees = vec![point(100, 4_000, "d"), point(600, 1_000, "a"), point(100, 3_000, "c"), point(700, 2_000, "b")];
    let flags = above(&fees, 200.0, 2.0);
    let runs = detect_spike_runs(&fees, &flags, 1_000);
    // 600 at 1s and 700 at 2s form one run, closed at 3s.
    assert_eq!(runs, vec![SpikeRun { peak_fee: 700, start_time: 1_000, duration: 2_000 }]);
}

#[test]
fn short_spike_runs_are_dropped() {
    let fees = vec![point(600, 0, "a"), point(100, 500, "b"), point(900, 1_000, "c"), point(800, 3_000, "d")];
    let flags = above(&fees, 100.0, 2.0);
    // first run lasts 0.5 s (dropped); the second is still open at the last fee, 2 s long.
    let runs = detect_spike_runs(&fees, &flags, 1_000);
    assert_eq!(runs, vec![SpikeRun { peak_fee: 900, start_time: 1_000, duration: 2_000 }]);
    assert!(detect_spike_runs(&[], &[], 0).is_empty());
    assert!(detect_spike_runs(&fees, &[false, false, false, false], 0).is_empty());
}

#[test]
fn equal_timestamps_keep_input_order() {
    let fees = vec![point(500, 10, "a"), point(100, 10, "b"), point(500, 20, "c")];
    let flags = vec![true, false, true];
    let runs = detect_spike_runs(&fees, &flags, 0);
    assert_eq!(
        runs,
        vec![
            SpikeRun { peak_fee: 500, start_time: 10, duration: 0 },
            SpikeRun { peak_fee: 500, start_time: 20, duration: 0 },
        ]
    );
}

#[test]
fn trend_strength_counts_severity_and_spikes() {
    assert_eq!(calculate_trend_strength(&[]), TrendStrength::Weak);
    assert_eq!(calculate_trend_strength(&[SpikeSeverity::Moderate]), TrendStrength::Weak); // 2.5
    assert_eq!(calculate_trend_strength(&[SpikeSeverity::Moderate, SpikeSeverity::Minor]), TrendStrength::Moderate); // 4.0
    assert_eq!(calculate_trend_strength(&[SpikeSeverity::Critical]), TrendStrength::Moderate); // 8.5
    assert_eq!(calculate_trend_strength(&[SpikeSeverity::Critical, SpikeSeverity::Minor]), TrendStrength::Strong); // 10.0
    assert_eq!(calculate_trend_strength(&[SpikeSeverity::Major, SpikeSeverity::Major, SpikeSeverity::Minor]), TrendStrength::Strong); // 9 + 1.5
}

#[test]
fn trend_indicator_rules() {
    assert_eq!(determine_trend_indicator(&[], RatioShift::Up), TrendIndicator::Normal);
    assert_eq!(determine_trend_indicator(&[SpikeSeverity::Minor], RatioShift::Down), TrendIndicator::Rising);
    assert_eq!(determine_trend_indicator(&[SpikeSeverity::Minor, SpikeSeverity::Major], RatioShift::Down), TrendIndicator::Congested);
    assert_eq!(determine_trend_indicator(&[SpikeSeverity::Minor, SpikeSeverity::Minor, SpikeSeverity::Minor], RatioShift::Up), TrendIndicator::Rising);
    assert_eq!(determine_trend_indicator(&[SpikeSeverity::Critical, SpikeSeverity::Minor, SpikeSeverity::Minor], RatioShift::Down), TrendIndicator::Declining);
    assert_eq!(determine_trend_indicator(&[SpikeSeverity::Minor, SpikeSeverity::Minor, SpikeSeverity::Minor], RatioShift::Level), TrendIndicator::Congested);
}

#[test]
fn duration_prediction_scales_with_strength() {
    assert_eq!(predict_duration(&[], &[]), None);
    // mean of 10 and 21 minutes is 15 (rounded down); weak trend keeps it
    assert_eq!(predict_duration(&[10 * MILLIS_PER_MINUTE, 21 * MILLIS_PER_MINUTE + 59_999], &[SpikeSeverity::Minor, SpikeSeverity::Minor]), Some(15));
    // moderate trend: 15 * 1.5 = 22.5 -> 22
    assert_eq!(predict_duration(&[10 * MILLIS_PER_MINUTE, 21 * MILLIS_PER_MINUTE], &[SpikeSeverity::Critical]), Some(22));
    // strong trend doubles
    assert_eq!(predict_duration(&[7 * MILLIS_PER_MINUTE], &[SpikeSeverity::Critical, SpikeSeverity::Major]), Some(14));
}

#[test]
fn expired_spikes_are_the_leading_old_ones() {
    assert_eq!(count_expired_spikes(&[1, 2, 10, 3], 5), 2);
    assert_eq!(count_expired_spikes(&[7, 1], 5), 0);
    assert_eq!(count_expired_spikes(&[1, 2], 5), 2);
    assert_eq!(count_expired_spikes(&[], 5), 0);
}

#[test]
fn severity_ranks_and_names() {
    assert_eq!(
        [severity_rank(&SpikeSeverity::Minor), severity_rank(&SpikeSeverity::Moderate), severity_rank(&SpikeSeverity::Major), severity_rank(&SpikeSeverity::Critical)],
        [0, 1, 2, 3]
    );
    assert!(meets_threshold(&SpikeSeverity::Critical, &SpikeSeverity::Major));
    assert!(meets_threshold(&SpikeSeverity::Major, &SpikeSeverity::Major));
    assert!(!meets_threshold(&SpikeSeverity::Moderate, &SpikeSeverity::Major));
    assert_eq!(severity_to_str(&SpikeSeverity::Moderate), "Moderate");
    assert_eq!(severity_to_str(&SpikeSeverity::Critical), "Critical");
}

#[test]
fn spikes_are_dispatched_once() {
    let mut seen = SeenSpikes::new();
    let spikes = [
        AlertCandidate { severity: SpikeSeverity::Major, start_time: 1_000_500, peak_fee: 900 },
        AlertCandidate { severity: SpikeSeverity::Minor, start_time: 2_000_000, peak_fee: 300 },
        AlertCandidate { severity: SpikeSeverity::Critical, start_time: 3_000_000, peak_fee: 5_000 },
        AlertCandidate { severity: SpikeSeverity::Major, start_time: 1_000_999, peak_fee: 900 },
    ];
    let sent = spikes_to_dispatch(&mut seen, &spikes, &SpikeSeverity::Major);
    // the last candidate has the same identity (same second, severity and peak) as the first
    assert_eq!(sent, vec![0, 2]);
    assert!(seen.contains(&spike_identity(&spikes[0])));
    assert!(!seen.contains(&spike_identity(&spikes[1])));
    let again = spikes_to_dispatch(&mut seen, &spikes, &SpikeSeverity::Major);
    assert!(again.is_empty());
}

#[test]
fn spike_detection_ignores_input_order() {
    let now = 1_700_000_000_000;
    let fees = vec![
        point(100, now - 30 * MILLIS_PER_MINUTE, "hash1"),
        point(250, now - 20 * MILLIS_PER_MINUTE, "hash2"),
        point(300, now - 15 * MILLIS_PER_MINUTE, "hash3"),
        point(100, now - 10 * MILLIS_PER_MINUTE, "hash4"),
        point(400, now - 5 * MILLIS_PER_MINUTE, "hash5"),
        point(450, now, "hash6"),
    ];
    let shuffled = vec![
        fees[4].clone(),
        fees[1].clone(),
        fees[5].clone(),
        fees[0].clone(),
        fees[3].clone(),
        fees[2].clone(),
    ];
    let a = detect_spike_runs(&fees, &above(&fees, 100.0, 2.0), MILLIS_PER_MINUTE);
    let b = detect_spike_runs(&shuffled, &above(&shuffled, 100.0, 2.0), MILLIS_PER_MINUTE);
    assert_eq!(a, b);
    assert_eq!(a.len(), 2);
    assert_eq!(a[0], SpikeRun { peak_fee: 300, start_time: now - 20 * MILLIS_PER_MINUTE, duration: 10 * MILLIS_PER_MINUTE });
    assert_eq!(a[1], SpikeRun { peak_fee: 450, start_time: now - 5 * MILLIS_PER_MINUTE, duration: 5 * MILLIS_PER_MINUTE });
}
