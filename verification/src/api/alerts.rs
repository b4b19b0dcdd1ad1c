//! Validation of the alert webhook configuration requests.

use vstd::prelude::*;

use crate::api::headers::{is_whitespace, trim};
use crate::netaddr::{copy_range, group_values, internal_ipv6, ipv4_octets, ipv6_groups, parse_ipv4, parse_ipv6};
use crate::text::{before_first, chars_of, lemma_before_first_len, has_prefix, prefix_before, push_str, starts_with_chars, str_eq, string_from_chars};

verus! {

/// Body of `POST /alerts/config`.
#[derive(Debug, Clone)]
pub struct CreateAlertRequest {
    pub webhook_url: String,
    pub threshold: Option<String>,
}

/// Body of `PATCH /alerts/config/:id`.
#[derive(Debug, Clone)]
pub struct UpdateAlertRequest {
    pub threshold: Option<String>,
    pub enabled: Option<bool>,
}

/// Answer of `POST /alerts/config`.
#[derive(Debug, Clone, Copy)]
pub struct CreateAlertResponse {
    pub id: i64,
}

/// Query of `GET /alerts/history`.
#[derive(Debug, Clone)]
pub struct AlertHistoryQuery {
    pub limit: Option<i64>,
    pub severity: Option<String>,
    pub delivered: Option<bool>,
}

/// A stored alert webhook configuration.
#[derive(Debug, Clone)]
pub struct AlertConfig {
    pub id: i64,
    pub webhook_url: String,
    pub threshold: String,
    pub enabled: bool,
    pub created_at: String,
}

/// Why an alert request is refused.
#[derive(Debug, Clone)]
pub enum AlertRequestError {
    /// The threshold is not one of `Minor`, `Major`, `Critical`.
    InvalidThreshold(String),
    /// The history's severity filter is not one of `Minor`, `Major`, `Critical`.
    InvalidSeverity(String),
    /// The webhook URL is not an HTTPS URL with a public host.
    UnsafeWebhookUrl,
    /// No alert configuration has the requested id.
    NotFound,
}

/// The thresholds an alert configuration may name.
pub open spec fn valid_threshold(t: Seq<char>) -> bool {
    t == "Minor"@ || t == "Major"@ || t == "Critical"@
}

/// Whether `t` names an alert threshold: `Minor`, `Major` or `Critical`.
pub fn is_valid_threshold(t: &str) -> (r: bool)
    ensures
        r == valid_threshold(t@),
{
    str_eq(t, "Minor") || str_eq(t, "Major") || str_eq(t, "Critical")
}

/// Host named by an `https://` URL. Its authority is the text after the scheme up to
/// the first `/`. A bracketed IPv6 literal (`[...]`) is the text between `[` and the
/// first `]` (nothing when the `]` is missing); any other host is the authority up to
/// the first `:`. Both are trimmed.
pub open spec fn url_host(url: Seq<char>) -> Seq<char> {
    let authority = before_first(url.skip(8), '/');
    if authority.len() > 0 && authority[0] == '[' {
        let inner = authority.drop_first();
        if inner.contains(']') {
            trim(before_first(inner, ']'))
        } else {
            Seq::empty()
        }
    } else {
        trim(before_first(authority, ':'))
    }
}

/// An IPv4 address that must not receive webhooks: loopback, private, link-local,
/// unspecified or broadcast.
pub open spec fn internal_ipv4(o: Seq<u8>) -> bool {
    ||| o[0] == 127
    ||| o[0] == 10
    ||| (o[0] == 172 && 16 <= o[1] <= 31)
    ||| (o[0] == 192 && o[1] == 168)
    ||| (o[0] == 169 && o[1] == 254)
    ||| (o[0] == 0 && o[1] == 0 && o[2] == 0 && o[3] == 0)
    ||| (o[0] == 255 && o[1] == 255 && o[2] == 255 && o[3] == 255)
}

/// A webhook URL is safe when it uses HTTPS and its host is non-empty, not a loopback
/// name, not an internal IPv4 or IPv6 address, and not in `169.254.*` or `100.64.*`.
pub open spec fn safe_webhook_url(url: Seq<char>) -> bool {
    let host = url_host(url);
    &&& has_prefix(url, "https://"@)
    &&& host.len() > 0
    &&& host != "localhost"@ && host != "ip6-localhost"@ && host != "ip6-loopback"@
    &&& !(ipv4_octets(host) matches Some(o) && internal_ipv4(o))
    &&& !(ipv6_groups(host) matches Some(g) && internal_ipv6(g))
    &&& !has_prefix(host, "169.254."@)
    &&& !has_prefix(host, "100.64."@)
}

pub(crate) fn trim_chars(s: &Vec<char>) -> (r: Vec<char>)
    ensures
        r@ == trim(s@),
{
    let n = s.len();
    let mut a: usize = 0;
    assert(s@.subrange(0, n as int) =~= s@);
    while a < n && crate::api::headers::is_whitespace_char(s[a])
        invariant
            n == s@.len(),
            0 <= a <= n,
            crate::api::headers::trim_start(s@) == crate::api::headers::trim_start(s@.subrange(a as int, n as int)),
        decreases n - a,
    {
        proof {
            assert(s@.subrange(a as int, n as int).drop_first() =~= s@.subrange(a + 1, n as int));
        }
        a = a + 1;
    }
    let ghost front = s@.subrange(a as int, n as int);
    let mut b: usize = n;
    while b > a && crate::api::headers::is_whitespace_char(s[b - 1])
        invariant
            n == s@.len(),
            0 <= a <= b <= n,
            front == s@.subrange(a as int, n as int),
            crate::api::headers::trim_end(front) == crate::api::headers::trim_end(s@.subrange(a as int, b as int)),
        decreases b - a,
    {
        proof {
            assert(s@.subrange(a as int, b as int).drop_last() =~= s@.subrange(a as int, b - 1));
        }
        b = b - 1;
    }
    let mut out: Vec<char> = Vec::new();
    let mut i: usize = a;
    while i < b
        invariant
            n == s@.len(),
            0 <= a <= i <= b <= n,
            out@ == s@.subrange(a as int, i as int),
        decreases b - i,
    {
        proof {
            assert(s@.subrange(a as int, i + 1) =~= s@.subrange(a as int, i as int).push(s@[i as int]));
        }
        out.push(s[i]);
        i = i + 1;
    }
    out
}

/// Validate that a webhook URL is safe to call:
/// - Must use HTTPS.
/// - Host must not be a loopback, link-local, or private-range IP (SSRF guard).
/// - Must have a non-empty hostname.
pub fn is_safe_webhook_url(url: &str) -> (r: bool)
    ensures
        r == safe_webhook_url(url@),
{
    let chars = chars_of(url);
    if !starts_with_chars(&chars, "https://") {
        return false;
    }
    proof {
        reveal_strlit("https://");
    }
    let mut after: Vec<char> = Vec::new();
    let mut i: usize = 8;
    while i < chars.len()
        invariant
            8 <= chars@.len(),
            8 <= i <= chars@.len(),
            after@ == chars@.subrange(8, i as int),
        decreases chars@.len() - i,
    {
        proof {
            assert(chars@.subrange(8, i + 1) =~= chars@.subrange(8, i as int).push(chars@[i as int]));
        }
        after.push(chars[i]);
        i = i + 1;
    }
    assert(after@ =~= url@.skip(8));
    let authority = prefix_before(&after, '/');
    let host = if authority.len() > 0 && authority[0] == '[' {
        let inner = copy_range(&authority, 1, authority.len());
        assert(inner@ =~= authority@.drop_first());
        let literal = prefix_before(&inner, ']');
        proof {
            lemma_before_first_len(inner@, ']');
        }
        if literal.len() < inner.len() {
            trim_chars(&literal)
        } else {
            Vec::new()
        }
    } else {
        let host_raw = prefix_before(&authority, ':');
        trim_chars(&host_raw)
    };
    assert(host@ == url_host(url@));
    if host.len() == 0 {
        return false;
    }
    let host_text = string_from_chars(&host);
    let host_str = host_text.as_str();
    if str_eq(host_str, "localhost") || str_eq(host_str, "ip6-localhost") || str_eq(host_str, "ip6-loopback") {
        return false;
    }
    match parse_ipv4(&host) {
        Some(o) => {
            if o[0] == 127 || o[0] == 10 || (o[0] == 172 && 16 <= o[1] && o[1] <= 31) || (o[0]
                == 192 && o[1] == 168) || (o[0] == 169 && o[1] == 254) || (o[0] == 0 && o[1] == 0
                && o[2] == 0 && o[3] == 0) || (o[0] == 255 && o[1] == 255 && o[2] == 255 && o[3]
                == 255) {
                return false;
            }
        },
        None => {},
    }
    match parse_ipv6(&host) {
        Some(g) => {
            let ghost gv = group_values(g@);
            let zero_head = g[0] == 0 && g[1] == 0 && g[2] == 0 && g[3] == 0 && g[4] == 0 && g[5] == 0 && g[6] == 0;
            if (zero_head && g[7] == 1) || (zero_head && g[7] == 0) || g[0] >= 0xff00 {
                proof {
                    if zero_head && g[7] == 1 {
                        assert(gv =~= seq![0nat, 0, 0, 0, 0, 0, 0, 1]);
                    }
                }
                return false;
            }
            proof {
                assert(gv != seq![0nat, 0, 0, 0, 0, 0, 0, 1]) by {
                    if gv == seq![0nat, 0, 0, 0, 0, 0, 0, 1] {
                        assert(gv[7] == 1);
                        assert(gv[0] == 0 && gv[1] == 0 && gv[2] == 0 && gv[3] == 0);
                        assert(gv[4] == 0 && gv[5] == 0 && gv[6] == 0);
                    }
                }
                assert(!(forall|i: int| 0 <= i < 8 ==> #[trigger] gv[i] == 0)) by {
                    if zero_head {
                        assert(gv[7] != 0);
                    } else if g[0] != 0 {
                        assert(gv[0] != 0);
                    } else if g[1] != 0 {
                        assert(gv[1] != 0);
                    } else if g[2] != 0 {
                        assert(gv[2] != 0);
                    } else if g[3] != 0 {
                        assert(gv[3] != 0);
                    } else if g[4] != 0 {
                        assert(gv[4] != 0);
                    } else if g[5] != 0 {
                        assert(gv[5] != 0);
                    } else {
                        assert(gv[6] != 0);
                    }
                }
            }
        },
        None => {},
    }
    if starts_with_chars(&host, "169.254.") || starts_with_chars(&host, "100.64.") {
        return false;
    }
    true
}

/// Threshold of a new alert configuration: the requested one, `Major` when none is given.
pub open spec fn requested_threshold(req: CreateAlertRequest) -> Seq<char> {
    match req.threshold {
        Some(t) => t@,
        None => "Major"@,
    }
}

/// Checks a `POST /alerts/config` body; on success returns the threshold to store.
pub fn validate_create_alert(req: &CreateAlertRequest) -> (r: Result<String, AlertRequestError>)
    ensures
        !valid_threshold(requested_threshold(*req)) ==> (r matches Err(AlertRequestError::InvalidThreshold(t))
            && t@ == requested_threshold(*req)),
        valid_threshold(requested_threshold(*req)) && !safe_webhook_url(req.webhook_url@) ==> (r matches Err(
            AlertRequestError::UnsafeWebhookUrl,
        )),
        valid_threshold(requested_threshold(*req)) && safe_webhook_url(req.webhook_url@) ==> (r matches Ok(t)
            && t@ == requested_threshold(*req)),
{
    let threshold = match &req.threshold {
        Some(t) => t.clone(),
        None => String::from_str("Major"),
    };
    if !is_valid_threshold(threshold.as_str()) {
        return Err(AlertRequestError::InvalidThreshold(threshold));
    }
    if !is_safe_webhook_url(req.webhook_url.as_str()) {
        return Err(AlertRequestError::UnsafeWebhookUrl);
    }
    Ok(threshold)
}

/// Position of the first configuration with the given id, if any.
pub open spec fn config_position(configs: Seq<AlertConfig>, id: i64) -> Option<int> {
    if exists|k: int| 0 <= k < configs.len() && (#[trigger] configs[k]).id == id {
        Some(choose|k: int| 0 <= k < configs.len() && (#[trigger] configs[k]).id == id && forall|j: int| 0 <= j < k ==> (#[trigger] configs[j]).id != id)
    } else {
        None
    }
}

/// Resolves a `PATCH /alerts/config/:id` body against the stored configurations: the
/// configuration with that id (the first one) supplies whatever the body leaves out.
/// On success returns the threshold and enabled state to store.
pub fn plan_alert_update(configs: &[AlertConfig], id: i64, body: &UpdateAlertRequest) -> (r: Result<(String, bool), AlertRequestError>)
    ensures
        (forall|k: int| 0 <= k < configs@.len() ==> (#[trigger] configs@[k]).id != id) ==> (r matches Err(AlertRequestError::NotFound)),
        forall|k: int|
            0 <= k < configs@.len() && (#[trigger] configs@[k]).id == id && (forall|j: int| 0 <= j < k ==> (#[trigger] configs@[j]).id != id) ==> {
                let threshold = match body.threshold { Some(t) => t@, None => configs@[k].threshold@ };
                let enabled = match body.enabled { Some(e) => e, None => configs@[k].enabled };
                &&& !valid_threshold(threshold) ==> (r matches Err(AlertRequestError::InvalidThreshold(t)) && t@ == threshold)
                &&& valid_threshold(threshold) ==> (r matches Ok((t, e)) && t@ == threshold && e == enabled)
            },
{
    let mut k: usize = 0;
    while k < configs.len()
        invariant
            0 <= k <= configs@.len(),
            forall|j: int| 0 <= j < k ==> (#[trigger] configs@[j]).id != id,
        decreases configs@.len() - k,
    {
        if configs[k].id == id {
            let current = &configs[k];
            let threshold = match &body.threshold {
                Some(t) => t.clone(),
                None => current.threshold.clone(),
            };
            let enabled = match body.enabled {
                Some(e) => e,
                None => current.enabled,
            };
            if !is_valid_threshold(threshold.as_str()) {
                return Err(AlertRequestError::InvalidThreshold(threshold));
            }
            return Ok((threshold, enabled));
        }
        k = k + 1;
    }
    Err(AlertRequestError::NotFound)
}

/// `limit` clamped into 1..=100.
pub open spec fn clamped_limit(limit: i64) -> i64 {
    if limit < 1 { 1 } else if limit > 100 { 100 } else { limit }
}

/// Clamps a history page size into 1..=100.
pub fn clamp_history_limit(limit: i64) -> (r: i64)
    ensures
        r == clamped_limit(limit),
{
    if limit < 1 {
        1
    } else if limit > 100 {
        100
    } else {
        limit
    }
}

/// Checks a `GET /alerts/history` query; on success returns the page size
/// (default 20, clamped into 1..=100).
pub fn plan_history_query(query: &AlertHistoryQuery) -> (r: Result<i64, AlertRequestError>)
    ensures
        (query.severity matches Some(s) && !valid_threshold(s@)) ==> (r matches Err(AlertRequestError::InvalidSeverity(t))
            && t@ == query.severity->0@),
        !(query.severity matches Some(s) && !valid_threshold(s@)) ==> r == Ok::<i64, AlertRequestError>(
            clamped_limit(match query.limit { Some(l) => l, None => 20 }),
        ),
{
    let limit = match query.limit {
        Some(l) => l,
        None => 20,
    };
    let limit = clamp_history_limit(limit);
    match &query.severity {
        Some(sev) => {
            if !is_valid_threshold(sev.as_str()) {
                return Err(AlertRequestError::InvalidSeverity(sev.clone()));
            }
        },
        None => {},
    }
    Ok(limit)
}

/// Human-readable message of a refused alert request.
pub open spec fn alert_error_text(e: AlertRequestError) -> Seq<char> {
    match e {
        AlertRequestError::InvalidThreshold(t) => "Invalid threshold '"@ + t@ + "'. Must be one of: Minor, Major, Critical"@,
        AlertRequestError::InvalidSeverity(t) => "Invalid severity '"@ + t@ + "'. Must be one of: Minor, Major, Critical"@,
        AlertRequestError::UnsafeWebhookUrl => "Invalid webhook_url: must be an HTTPS URL with a public hostname"@,
        AlertRequestError::NotFound => "Alert config not found"@,
    }
}

impl AlertRequestError {
    /// The message the API answers a refused request with.
    pub fn message(&self) -> (r: String)
        ensures
            r@ == alert_error_text(*self),
    {
        let mut out: Vec<char> = Vec::new();
        match self {
            AlertRequestError::InvalidThreshold(t) => {
                push_str(&mut out, "Invalid threshold '");
                push_str(&mut out, t.as_str());
                push_str(&mut out, "'. Must be one of: Minor, Major, Critical");
            },
            AlertRequestError::InvalidSeverity(t) => {
                push_str(&mut out, "Invalid severity '");
                push_str(&mut out, t.as_str());
                push_str(&mut out, "'. Must be one of: Minor, Major, Critical");
            },
            AlertRequestError::UnsafeWebhookUrl => {
                push_str(&mut out, "Invalid webhook_url: must be an HTTPS URL with a public hostname");
            },
            AlertRequestError::NotFound => {
                push_str(&mut out, "Alert config not found");
            },
        }
        assert(out@ =~= alert_error_text(*self));
        string_from_chars(&out)
    }
}

} // verus!
