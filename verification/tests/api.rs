use stellar_fee_tracker::api::alerts::{
    clamp_history_limit, is_safe_webhook_url, is_valid_threshold, plan_alert_update, plan_history_query,
    validate_create_alert, AlertConfig, AlertHistoryQuery, AlertRequestError, CreateAlertRequest,
    UpdateAlertRequest,
};
use stellar_fee_tracker::api::fees::{
    cache_is_fresh, compute_summary, current_fee_response_from_stats, parse_window, percentile_nearest_rank,
    requested_window, trend_indicator_to_string, trend_strength_to_string, FeeHistoryQuery,
};
use stellar_fee_tracker::api::headers::{
    cache_control, compute_etag, if_none_match_value_matches, last_modified,
};
use stellar_fee_tracker::netaddr::{parse_ipv4, parse_ipv6};
use stellar_fee_tracker::insights::types::{FeeDataPoint, TrendIndicator, TrendStrength};
use stellar_fee_tracker::services::horizon::{FeeCharged, HorizonFeeStats};

#[test]
fn trend_indicator_declining_serialises_to_human_readable_string() {
    assert_eq!(trend_indicator_to_string(&TrendIndicator::Declining), "Declining");
}

#[test]
fn trend_names_are_human_readable() {
    assert_eq!(trend_indicator_to_string(&TrendIndicator::Normal), "Normal");
    assert_eq!(trend_indicator_to_string(&TrendIndicator::Rising), "Rising");
    assert_eq!(trend_indicator_to_string(&TrendIndicator::Congested), "Congested");
    assert_eq!(trend_strength_to_string(&TrendStrength::Weak), "Weak");
    assert_eq!(trend_strength_to_string(&TrendStrength::Moderate), "Moderate");
    assert_eq!(trend_strength_to_string(&TrendStrength::Strong), "Strong");
}

#[test]
fn etag_is_quoted() {
    let etag = compute_etag(br#"{"ok":true}"#);
    assert!(etag.starts_with('"'));
    assert!(etag.ends_with('"'));
}

#[test]
fn etag_is_the_fnv1a_digest() {
    assert_eq!(compute_etag(br#"{"ok":true}"#), "\"1b4b9c59b3854dc5\"");
    assert_eq!(compute_etag(b""), "\"cbf29ce484222325\"");
    assert_ne!(compute_etag(b"a"), compute_etag(b"b"));
}

#[test]
fn if_none_match_matches_exact_tag() {
    assert!(if_none_match_value_matches("\"abc\"", "\"abc\""));
    assert!(!if_none_match_value_matches("\"abc\"", "\"def\""));
}

#[test]
fn if_none_match_lists_and_wildcard() {
    assert!(if_none_match_value_matches(" \"x\" , \"abc\" ", "\"abc\""));
    assert!(if_none_match_value_matches("*", "\"anything\""));
    assert!(!if_none_match_value_matches("", "\"abc\""));
}

#[test]
fn cache_control_and_last_modified_headers() {
    assert_eq!(cache_control(5, 10), "max-age=5, stale-while-revalidate=10");
    assert_eq!(last_modified(0), "Thu, 01 Jan 1970 00:00:00 GMT");
    assert_eq!(last_modified(1_700_000_000_123), "Tue, 14 Nov 2023 22:13:20 GMT");
    assert_eq!(last_modified(i64::MAX), "0");
}

fn fee(amount: u64) -> FeeDataPoint {
    FeeDataPoint { fee_amount: amount, timestamp: 0, transaction_hash: "h".to_string(), ledger_sequence: 1 }
}

#[test]
fn history_summary_statistics() {
    let fees: Vec<FeeDataPoint> = [500u64, 100, 300, 200, 400].iter().map(|a| fee(*a)).collect();
    let s = compute_summary(&fees);
    assert_eq!((s.min, s.max, s.total, s.data_points), (100, 500, 1500, 5));
    assert_eq!(s.p50, 300);
    assert_eq!(s.p95, 500);
    let empty = compute_summary(&[]);
    assert_eq!((empty.min, empty.max, empty.total, empty.data_points, empty.p50, empty.p95), (0, 0, 0, 0, 0, 0));
}

#[test]
fn nearest_rank_helper_of_the_history_summary() {
    assert_eq!(percentile_nearest_rank(&[], 50), 0);
    assert_eq!(percentile_nearest_rank(&[1, 2, 3, 4], 50), 2);
    assert_eq!(percentile_nearest_rank(&[1, 2, 3, 4], 95), 4);
    assert_eq!(percentile_nearest_rank(&[9], 0), 9);
}

#[test]
fn history_windows() {
    assert_eq!(parse_window("1h"), Some(3_600_000));
    assert_eq!(parse_window("6h"), Some(21_600_000));
    assert_eq!(parse_window("24h"), Some(86_400_000));
    assert_eq!(parse_window("7d"), None);
    assert_eq!(requested_window(&FeeHistoryQuery { window: None }), "1h");
    assert_eq!(requested_window(&FeeHistoryQuery { window: Some("6h".to_string()) }), "6h");
}

#[test]
fn current_fees_copy_horizon_stats() {
    let s = |v: &str| v.to_string();
    let stats = HorizonFeeStats {
        last_ledger_base_fee: s("100"),
        fee_charged: FeeCharged {
            min: s("100"),
            max: s("5000"),
            avg: s("213"),
            p10: s("100"),
            p20: s("100"),
            p30: s("120"),
            p40: s("140"),
            p50: s("150"),
            p60: s("200"),
            p70: s("300"),
            p80: s("400"),
            p90: s("500"),
            p95: s("800"),
            p99: s("1200"),
        },
    };
    let r = current_fee_response_from_stats(stats);
    assert_eq!(r.base_fee, "100");
    assert_eq!(r.avg_fee, "213");
    assert_eq!(r.max_fee, "5000");
    assert_eq!(r.percentiles.p50, "150");
    assert_eq!(r.percentiles.p95, "800");
    assert_eq!(r.percentiles.p99, "1200");
}

#[test]
fn thresholds_are_minor_major_critical() {
    assert!(is_valid_threshold("Minor"));
    assert!(is_valid_threshold("Major"));
    assert!(is_valid_threshold("Critical"));
    assert!(!is_valid_threshold("Moderate"));
    assert!(!is_valid_threshold("major"));
}

#[test]
fn webhook_urls_must_be_public_https() {
    assert!(is_safe_webhook_url("https://example.com/hook"));
    assert!(is_safe_webhook_url("https://hooks.example.com:8443/x?y=1"));
    assert!(is_safe_webhook_url("https://8.8.8.8/hook"));
    assert!(!is_safe_webhook_url("http://example.com/hook"));
    assert!(!is_safe_webhook_url("https:///hook"));
    assert!(!is_safe_webhook_url("https://localhost/hook"));
    assert!(!is_safe_webhook_url("https://127.0.0.1/hook"));
    assert!(!is_safe_webhook_url("https://10.1.2.3/hook"));
    assert!(!is_safe_webhook_url("https://192.168.0.10:443/hook"));
    assert!(!is_safe_webhook_url("https://172.16.5.4/hook"));
    assert!(!is_safe_webhook_url("https://169.254.169.254/latest/meta-data"));
    assert!(!is_safe_webhook_url("https://0.0.0.0/"));
    assert!(!is_safe_webhook_url("https://255.255.255.255/"));
    assert!(!is_safe_webhook_url("https://100.64.1.1/"));
    assert!(!is_safe_webhook_url("https://ip6-localhost/"));
}

#[test]
fn bracketed_ipv6_webhook_hosts() {
    assert!(!is_safe_webhook_url("https://[::1]/hook"));
    assert!(!is_safe_webhook_url("https://[::1]:8443/hook"));
    assert!(!is_safe_webhook_url("https://[::]/hook"));
    assert!(!is_safe_webhook_url("https://[ff02::1]/hook"));
    assert!(!is_safe_webhook_url("https://[0:0:0:0:0:0:0:1]/hook"));
    assert!(!is_safe_webhook_url("https://[::0.0.0.1]/hook"));
    assert!(!is_safe_webhook_url("https://[::1/hook"));
    assert!(!is_safe_webhook_url("https://[]/hook"));
    assert!(is_safe_webhook_url("https://[2001:db8::1]/hook"));
    assert!(is_safe_webhook_url("https://[2001:db8:0:0:0:0:0:1]:443/hook"));
}

#[test]
fn ipv6_text_forms() {
    let parse = |s: &str| parse_ipv6(&s.chars().collect());
    assert_eq!(parse("::1"), Some(vec![0, 0, 0, 0, 0, 0, 0, 1]));
    assert_eq!(parse("::"), Some(vec![0; 8]));
    assert_eq!(parse("2001:db8::ff00:42:8329"), Some(vec![0x2001, 0xdb8, 0, 0, 0, 0xff00, 0x42, 0x8329]));
    assert_eq!(parse("1:2:3:4:5:6:7:8"), Some(vec![1, 2, 3, 4, 5, 6, 7, 8]));
    assert_eq!(parse("::ffff:192.168.1.2"), Some(vec![0, 0, 0, 0, 0, 0xffff, 0xc0a8, 0x0102]));
    assert_eq!(parse("FE80::A"), Some(vec![0xfe80, 0, 0, 0, 0, 0, 0, 10]));
    assert_eq!(parse("1:2:3:4:5:6:7"), None);
    assert_eq!(parse("1:2:3:4:5:6:7:8:9"), None);
    assert_eq!(parse("1::2::3"), None);
    assert_eq!(parse("1:2:3:4::5:6:7:8"), None);
    assert_eq!(parse("12345::"), None);
    assert_eq!(parse(":1::2"), None);
    assert_eq!(parse("g::1"), None);
    assert_eq!(parse(""), None);
    assert_eq!(parse_ipv4(&"10.0.0.1".chars().collect()), Some([10, 0, 0, 1]));
}

#[test]
fn create_alert_request_validation() {
    let ok = CreateAlertRequest { webhook_url: "https://example.com/hook".to_string(), threshold: None };
    assert_eq!(validate_create_alert(&ok).unwrap(), "Major");

    let bad_threshold = CreateAlertRequest {
        webhook_url: "https://example.com/hook".to_string(),
        threshold: Some("Catastrophic".to_string()),
    };
    let err = validate_create_alert(&bad_threshold).unwrap_err();
    assert_eq!(err.message(), "Invalid threshold 'Catastrophic'. Must be one of: Minor, Major, Critical");

    let unsafe_url = CreateAlertRequest { webhook_url: "https://127.0.0.1/x".to_string(), threshold: None };
    assert!(matches!(validate_create_alert(&unsafe_url), Err(AlertRequestError::UnsafeWebhookUrl)));
}

fn config(id: i64, threshold: &str, enabled: bool) -> AlertConfig {
    AlertConfig {
        id,
        webhook_url: "https://example.com/hook".to_string(),
        threshold: threshold.to_string(),
        enabled,
        created_at: "2024-01-01T00:00:00Z".to_string(),
    }
}

#[test]
fn alert_updates_merge_with_the_stored_config() {
    let configs = vec![config(1, "Minor", true), config(2, "Critical", false)];
    let keep = UpdateAlertRequest { threshold: None, enabled: None };
    assert_eq!(plan_alert_update(&configs, 2, &keep).unwrap(), ("Critical".to_string(), false));
    let change = UpdateAlertRequest { threshold: Some("Major".to_string()), enabled: Some(true) };
    assert_eq!(plan_alert_update(&configs, 2, &change).unwrap(), ("Major".to_string(), true));
    assert!(matches!(plan_alert_update(&configs, 9, &keep), Err(AlertRequestError::NotFound)));
    let bad = UpdateAlertRequest { threshold: Some("Huge".to_string()), enabled: None };
    assert!(matches!(plan_alert_update(&configs, 1, &bad), Err(AlertRequestError::InvalidThreshold(_))));
    assert_eq!(AlertRequestError::NotFound.message(), "Alert config not found");
}

#[test]
fn alert_history_limits_are_clamped() {
    assert_eq!(clamp_history_limit(0), 1);
    assert_eq!(clamp_history_limit(50), 50);
    assert_eq!(clamp_history_limit(1000), 100);
    let q = AlertHistoryQuery { limit: None, severity: None, delivered: None };
    assert_eq!(plan_history_query(&q).unwrap(), 20);
    let q = AlertHistoryQuery { limit: Some(500), severity: Some("Major".to_string()), delivered: Some(true) };
    assert_eq!(plan_history_query(&q).unwrap(), 100);
    let q = AlertHistoryQuery { limit: Some(5), severity: Some("Moderate".to_string()), delivered: None };
    let err = plan_history_query(&q).unwrap_err();
    assert_eq!(err.message(), "Invalid severity 'Moderate'. Must be one of: Minor, Major, Critical");
}

#[test]
fn cached_responses_expire_at_their_ttl() {
    assert!(cache_is_fresh(Some(0), 1));
    assert!(cache_is_fresh(Some(4_999), 5_000));
    assert!(!cache_is_fresh(Some(5_000), 5_000));
    assert!(!cache_is_fresh(None, 5_000));
}
