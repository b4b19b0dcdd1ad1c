use stellar_fee_tracker::devkit::cli::export::{Export, Window};
use stellar_fee_tracker::devkit::simulation::fee_model::{
    fee_points_from_draws, run_scenarios_from_draws, FeePoint, LedgerSchedule,
};

fn pts() -> Vec<FeePoint> {
    vec![
        FeePoint { timestamp: 0, fee: 100, ledger: 1, is_spike: false },
        FeePoint { timestamp: 7200, fee: 200, ledger: 2, is_spike: true },
    ]
}

fn sample() -> Vec<FeePoint> {
    vec![FeePoint { timestamp: 1000, fee: 100, ledger: 1, is_spike: false }]
}

#[test]
fn window_1h_filters() {
    let p = pts();
    let filtered = Export::filter_window(&p, Window::OneHour);
    assert_eq!(filtered.len(), 1);
    assert_eq!(filtered[0].timestamp, 7200);
}

#[test]
fn window_all_keeps_all() {
    let p = pts();
    assert_eq!(Export::filter_window(&p, Window::All).len(), 2);
}

#[test]
fn csv_has_header() {
    let csv = Export::to_csv(&sample());
    assert!(csv.starts_with("timestamp,fee,ledger,is_spike\n"));
}

#[test]
fn json_is_array() {
    let json = Export::to_json(&sample());
    assert!(json.starts_with('['));
    assert!(json.ends_with(']'));
}

#[test]
fn csv_rows_follow_header_exactly() {
    let csv = Export::to_csv(&pts());
    assert_eq!(csv, "timestamp,fee,ledger,is_spike\n0,100,1,false\n7200,200,2,true\n");
}

#[test]
fn csv_row_count_matches_generated_points() {
    let sched = LedgerSchedule { base_fee: 100, spike_multiplier: 10, ledger_interval_secs: 5 };
    let draws = [false, true, false, false, true, false, false, false, false, true];
    let points = fee_points_from_draws(&sched, 0, &draws);
    let csv = Export::to_csv(&points);
    let rows: Vec<&str> = csv.trim().lines().collect();
    assert_eq!(rows.len(), 11);
    let cols: Vec<&str> = rows[2].split(',').collect();
    assert_eq!(cols, vec!["5", "1000", "2", "true"]);
}

#[test]
fn json_items_hold_every_field() {
    let json = Export::to_json(&pts());
    assert_eq!(
        json,
        "[{\"timestamp\":0,\"fee\":100,\"ledger\":1,\"is_spike\":false},{\"timestamp\":7200,\"fee\":200,\"ledger\":2,\"is_spike\":true}]"
    );
    assert_eq!(Export::to_json(&[]), "[]");
}

#[test]
fn window_parse_and_cutoffs() {
    assert!(matches!(Window::parse("1h"), Some(Window::OneHour)));
    assert!(matches!(Window::parse("6h"), Some(Window::SixHours)));
    assert!(matches!(Window::parse("24h"), Some(Window::TwentyFourHours)));
    assert!(matches!(Window::parse("all"), Some(Window::All)));
    assert!(Window::parse("2h").is_none());
    assert_eq!(Window::OneHour.cutoff_seconds(), Some(3600));
    assert_eq!(Window::SixHours.cutoff_seconds(), Some(21600));
    assert_eq!(Window::TwentyFourHours.cutoff_seconds(), Some(86400));
    assert_eq!(Window::All.cutoff_seconds(), None);
}

#[test]
fn window_keeps_points_at_the_cutoff() {
    let p = vec![
        FeePoint { timestamp: 100, fee: 1, ledger: 1, is_spike: false },
        FeePoint { timestamp: 3700, fee: 2, ledger: 2, is_spike: false },
        FeePoint { timestamp: 3701, fee: 3, ledger: 3, is_spike: false },
    ];
    // cutoff = 3701 - 3600 = 101: the first point is dropped, the others kept.
    let kept = Export::filter_window(&p, Window::OneHour);
    assert_eq!(kept.len(), 2);
    assert_eq!(kept[0].fee, 2);
    assert!(Export::filter_window(&[], Window::OneHour).is_empty());
}

#[test]
fn generated_points_follow_schedule() {
    let sched = LedgerSchedule { base_fee: 100, spike_multiplier: 3, ledger_interval_secs: 5 };
    let points = fee_points_from_draws(&sched, 1_000, &[false, true, false]);
    assert_eq!(
        points,
        vec![
            FeePoint { timestamp: 1_000, fee: 100, ledger: 1, is_spike: false },
            FeePoint { timestamp: 1_005, fee: 300, ledger: 2, is_spike: true },
            FeePoint { timestamp: 1_010, fee: 100, ledger: 3, is_spike: false },
        ]
    );
}

#[test]
fn chained_scenarios_continue_ledgers_and_time() {
    let a = LedgerSchedule { base_fee: 100, spike_multiplier: 2, ledger_interval_secs: 5 };
    let b = LedgerSchedule { base_fee: 50, spike_multiplier: 4, ledger_interval_secs: 10 };
    let points = run_scenarios_from_draws(&[a, b], &[vec![false, true], vec![true]]);
    assert_eq!(
        points,
        vec![
            FeePoint { timestamp: 0, fee: 100, ledger: 1, is_spike: false },
            FeePoint { timestamp: 5, fee: 200, ledger: 2, is_spike: true },
            FeePoint { timestamp: 10, fee: 200, ledger: 3, is_spike: true },
        ]
    );
    // an empty scenario leaves the ledger count and the clock where they were
    let points = run_scenarios_from_draws(&[a, b, a], &[vec![false], vec![], vec![true]]);
    assert_eq!(points[1], FeePoint { timestamp: 5, fee: 200, ledger: 2, is_spike: true });
}
