use stellar_fee_tracker::devkit::analysis::percentile::Percentile;

/// Helper: generate a sorted sequence of length n starting at base with step.
fn sorted_seq(base: u64, step: u64, n: usize) -> Vec<u64> {
    (0..n).map(|i| base + i as u64 * step).collect()
}

#[test]
fn nearest_rank_basic() {
    let data = [10, 20, 30, 40, 50];
    assert_eq!(Percentile::nearest_rank(&data, 50), 30);
    assert_eq!(Percentile::nearest_rank(&data, 100), 50);
    assert_eq!(Percentile::nearest_rank(&data, 1), 10);
}

#[test]
fn nearest_rank_empty() {
    assert_eq!(Percentile::nearest_rank(&[], 50), 0);
}

#[test]
fn linear_interpolation_basic() {
    let data = [10, 20, 30, 40, 50];
    assert_eq!(Percentile::linear_interpolation(&data, 0), 10);
    assert_eq!(Percentile::linear_interpolation(&data, 100), 50);
    assert_eq!(Percentile::linear_interpolation(&data, 50), 30);
}

#[test]
fn linear_interpolation_empty() {
    assert_eq!(Percentile::linear_interpolation(&[], 50), 0);
}

#[test]
fn fee_distribution_summary_basic() {
    let data = [10u64, 20, 30, 40, 50];
    let s = Percentile::fee_distribution_summary(&data).unwrap();
    assert_eq!(s.min, 10);
    assert_eq!(s.max, 50);
    let mean = s.total as f64 / s.sample_count as f64;
    assert_eq!(mean, 30.0);
    assert_eq!(s.median, 30);
    assert_eq!(s.percentiles[9], 50); // p99
}

#[test]
fn fee_distribution_summary_empty() {
    assert!(Percentile::fee_distribution_summary(&[]).is_none());
}

#[test]
fn p0_always_returns_minimum() {
    for base in [1u64, 10, 100] {
        let data = sorted_seq(base, 1, 20);
        assert_eq!(Percentile::nearest_rank(&data, 1), base);
    }
}

#[test]
fn p100_always_returns_maximum() {
    for n in [5usize, 10, 50] {
        let data = sorted_seq(1, 1, n);
        assert_eq!(Percentile::nearest_rank(&data, 100), n as u64);
    }
}

#[test]
fn percentile_is_monotone_increasing() {
    let data: Vec<u64> = (1..=100).collect();
    let p25 = Percentile::nearest_rank(&data, 25);
    let p50 = Percentile::nearest_rank(&data, 50);
    let p75 = Percentile::nearest_rank(&data, 75);
    assert!(p25 <= p50);
    assert!(p50 <= p75);
}

#[test]
fn uniform_sequence_all_percentiles_equal() {
    let data = vec![42u64; 20];
    for p in [10, 25, 50, 75, 90, 99] {
        assert_eq!(Percentile::nearest_rank(&data, p), 42);
    }
}

#[test]
fn interpolation_p50_of_two_elements_is_midpoint() {
    for (a, b) in [(10u64, 20), (0, 100), (5, 15)] {
        let data = vec![a, b];
        let mid = Percentile::linear_interpolation(&data, 50);
        assert_eq!(mid, (a + b) / 2);
    }
}

#[test]
fn nearest_rank_p0_is_first_element() {
    let data = [7u64, 8, 9];
    assert_eq!(Percentile::nearest_rank(&data, 0), 7);
}

#[test]
fn nearest_rank_rounds_rank_up() {
    // rank = ceil(7 * 100 / 100) = 7, the seventh value.
    let data: Vec<u64> = (1..=100).collect();
    assert_eq!(Percentile::nearest_rank(&data, 7), 7);
    // rank = ceil(33 * 4 / 100) = 2
    assert_eq!(Percentile::nearest_rank(&[5, 6, 7, 8], 33), 6);
}

#[test]
fn linear_interpolation_between_neighbours() {
    // position 0.25 * 3 = 0.75 between 10 and 20: 10 + 0.75 * 10 = 17 (rounded down)
    assert_eq!(Percentile::linear_interpolation(&[10, 20, 30, 40], 25), 17);
    assert_eq!(Percentile::linear_interpolation(&[99], 70), 99);
}

#[test]
fn fee_distribution_summary_percentile_table() {
    let data: Vec<u64> = (1..=10).map(|i| i * 10).collect();
    let s = Percentile::fee_distribution_summary(&data).unwrap();
    assert_eq!(s.percentiles, [10, 20, 30, 40, 50, 60, 70, 80, 90, 100]);
    assert_eq!(s.median, 50);
    assert_eq!(s.total, 550);
    assert_eq!(s.sample_count, 10);
}
