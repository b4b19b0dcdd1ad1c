//! SQL text of the alert-history queries, built from the filters a request uses.

use vstd::prelude::*;

use crate::text::{push_str, string_from_chars};

verus! {

/// `WHERE` conditions of an alert-event query: always true, narrowed by severity and
/// by delivery when those filters are given (each bound as a `?` parameter).
pub open spec fn alert_filter_text(has_severity: bool, has_delivered: bool) -> Seq<char> {
    "1=1"@ + (if has_severity {
        " AND severity = ?"@
    } else {
        Seq::<char>::empty()
    }) + (if has_delivered {
        " AND delivered = ?"@
    } else {
        Seq::<char>::empty()
    })
}

/// The page query of the alert history, newest first, ending with the `LIMIT ?` parameter.
pub open spec fn alert_history_sql_text(has_severity: bool, has_delivered: bool) -> Seq<char> {
    "SELECT id, config_id, severity, peak_fee, baseline_fee, spike_ratio, webhook_url, delivered, triggered_at\n             FROM alert_events\n             WHERE "@
        + alert_filter_text(has_severity, has_delivered) + "\n             ORDER BY triggered_at DESC\n             LIMIT ?"@
}

/// The count query behind the alert history's total.
pub open spec fn alert_count_sql_text(has_severity: bool, has_delivered: bool) -> Seq<char> {
    "SELECT COUNT(*) as cnt FROM alert_events WHERE "@ + alert_filter_text(has_severity, has_delivered)
}

fn push_alert_filter(out: &mut Vec<char>, has_severity: bool, has_delivered: bool)
    ensures
        final(out)@ == old(out)@ + alert_filter_text(has_severity, has_delivered),
{
    let ghost start = out@;
    push_str(out, "1=1");
    if has_severity {
        push_str(out, " AND severity = ?");
    }
    if has_delivered {
        push_str(out, " AND delivered = ?");
    }
    assert(out@ =~= start + alert_filter_text(has_severity, has_delivered));
}

/// SQL of one page of the alert history for the filters in use.
pub fn alert_history_sql(has_severity: bool, has_delivered: bool) -> (r: String)
    ensures
        r@ == alert_history_sql_text(has_severity, has_delivered),
{
    let mut out: Vec<char> = Vec::new();
    push_str(
        &mut out,
        "SELECT id, config_id, severity, peak_fee, baseline_fee, spike_ratio, webhook_url, delivered, triggered_at\n             FROM alert_events\n             WHERE ",
    );
    push_alert_filter(&mut out, has_severity, has_delivered);
    push_str(&mut out, "\n             ORDER BY triggered_at DESC\n             LIMIT ?");
    assert(out@ =~= alert_history_sql_text(has_severity, has_delivered));
    string_from_chars(&out)
}

/// SQL counting the alert events that match the filters in use.
pub fn alert_count_sql(has_severity: bool, has_delivered: bool) -> (r: String)
    ensures
        r@ == alert_count_sql_text(has_severity, has_delivered),
{
    let mut out: Vec<char> = Vec::new();
    push_str(&mut out, "SELECT COUNT(*) as cnt FROM alert_events WHERE ");
    push_alert_filter(&mut out, has_severity, has_delivered);
    assert(out@ =~= alert_count_sql_text(has_severity, has_delivered));
    string_from_chars(&out)
}

} // verus!
