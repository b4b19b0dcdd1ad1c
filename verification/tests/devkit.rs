use std::path::PathBuf;
use stellar_fee_tracker::devkit::error::DevkitError;
use stellar_fee_tracker::devkit::harness::horizon_mock::{health_payload, resolve_fee_stats_source, FeeStatsSource};
use stellar_fee_tracker::devkit::harness::scenarios::ScenarioRotator;
use stellar_fee_tracker::devkit::test_helpers::FeeGenerator;

#[test]
fn same_seed_produces_same_sequence() {
    let a = FeeGenerator::new(42).generate(10, 100, 1000);
    let b = FeeGenerator::new(42).generate(10, 100, 1000);
    assert_eq!(a, b);
}

#[test]
fn different_seeds_produce_different_sequences() {
    let a = FeeGenerator::new(1).generate(10, 100, 1000);
    let b = FeeGenerator::new(2).generate(10, 100, 1000);
    assert_ne!(a, b);
}

#[test]
fn flat_returns_uniform_sequence() {
    assert_eq!(FeeGenerator::flat(500, 5), vec![500u64; 5]);
}

#[test]
fn generated_fees_stay_in_range() {
    let fees = FeeGenerator::new(7).generate(200, 100, 110);
    assert_eq!(fees.len(), 200);
    assert!(fees.iter().all(|f| (100..=110).contains(f)));
    assert_eq!(FeeGenerator::new(7).generate(3, 5, 5), vec![5, 5, 5]);
}

#[test]
fn rotator_cycles_through_scenarios() {
    let mut r = ScenarioRotator::new(vec!["normal".to_string(), "congested".to_string(), "spike".to_string()]);
    let seen: Vec<String> = (0..7).map(|_| r.advance().unwrap().to_string()).collect();
    assert_eq!(seen, vec!["normal", "congested", "spike", "normal", "congested", "spike", "normal"]);
    let mut empty = ScenarioRotator::new(vec![]);
    assert!(empty.advance().is_none());
}

#[test]
fn mock_health_payload_names_the_scenario() {
    assert_eq!(health_payload("congested"), "{\"status\":\"ok\",\"scenario\":\"congested\"}");
}

#[test]
fn mock_fee_stats_source_precedence() {
    match resolve_fee_stats_source(Some("{}".to_string()), Some(PathBuf::from("x.json")), "normal") {
        FeeStatsSource::Canned(body) => assert_eq!(body, "{}"),
        _ => panic!("canned response must win"),
    }
    match resolve_fee_stats_source(None, Some(PathBuf::from("x.json")), "normal") {
        FeeStatsSource::File(p) => assert_eq!(p, PathBuf::from("x.json")),
        _ => panic!("explicit path must win over the convention"),
    }
    match resolve_fee_stats_source(None, None, "normal") {
        FeeStatsSource::Conventional(p) => assert_eq!(p, "src/harness/scenarios/normal.json"),
        _ => panic!("convention expected"),
    }
}

#[test]
fn devkit_error_messages_name_their_layer() {
    assert_eq!(DevkitError::Simulation("bad params".to_string()).message(), "simulation error: bad params");
    assert_eq!(DevkitError::Harness("no port".to_string()).message(), "harness error: no port");
    assert_eq!(DevkitError::Analysis("too few points".to_string()).message(), "analysis error: too few points");
    let io = std::io::Error::new(std::io::ErrorKind::Other, "disk full");
    assert_eq!(DevkitError::Io(io).message(), "io error: disk full");
}
