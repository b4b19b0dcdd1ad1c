use stellar_fee_tracker::repository::{alert_count_sql, alert_history_sql};

#[test]
fn alert_history_sql_without_filters() {
    assert_eq!(
        alert_history_sql(false, false),
        "SELECT id, config_id, severity, peak_fee, baseline_fee, spike_ratio, webhook_url, delivered, triggered_at\n             FROM alert_events\n             WHERE 1=1\n             ORDER BY triggered_at DESC\n             LIMIT ?"
    );
}

#[test]
fn alert_history_sql_with_both_filters() {
    let sql = alert_history_sql(true, true);
    assert!(sql.contains("WHERE 1=1 AND severity = ? AND delivered = ?\n"));
    assert!(sql.ends_with("LIMIT ?"));
    assert!(alert_history_sql(false, true).contains("WHERE 1=1 AND delivered = ?\n"));
}

#[test]
fn alert_count_sql_follows_filters() {
    assert_eq!(alert_count_sql(false, false), "SELECT COUNT(*) as cnt FROM alert_events WHERE 1=1");
    assert_eq!(
        alert_count_sql(true, false),
        "SELECT COUNT(*) as cnt FROM alert_events WHERE 1=1 AND severity = ?"
    );
}
