//! Checks and estimates of the insights engine: validation of incoming fee data, gaps in
//! the data, the number of points expected since the last update, and the extremes
//! reported before any fee was seen.

use vstd::prelude::*;

use crate::clock::timestamp_in_range;
use crate::insights::calculator::{samples_after_adds, standard_averages, RollingAverageCalculator};
use crate::insights::tracker::{updated_with_fees, ExtremesTracker};
use crate::insights::types::{ExtremeValue, FeeDataPoint, FeeExtremes, InsightsError, RollingAverages, MILLIS_PER_HOUR};
use crate::text::{decimal, push_decimal, push_str, string_from_chars};

verus! {

/// Largest fee accepted, in stroops (1000 XLM).
pub const MAX_REASONABLE_FEE: u64 = 1_000_000_000;

/// Base fee of the Stellar network, in stroops.
pub const DEFAULT_BASE_FEE: u64 = 100;

/// What is wrong with a fee point.
#[derive(Debug, Clone, Copy, PartialEq, Eq, Structural)]
pub enum FeeIssue {
    ZeroFee,
    UnreasonablyLargeFee,
    EmptyTransactionHash,
    FutureTimestamp,
}

/// The first problem of `p`, in the order the checks are made, when the time is `now`.
pub open spec fn issue_of(p: FeeDataPoint, now: i64) -> Option<FeeIssue> {
    if p.fee_amount == 0 {
        Some(FeeIssue::ZeroFee)
    } else if p.fee_amount > MAX_REASONABLE_FEE {
        Some(FeeIssue::UnreasonablyLargeFee)
    } else if p.transaction_hash@.len() == 0 {
        Some(FeeIssue::EmptyTransactionHash)
    } else if p.timestamp > now + MILLIS_PER_HOUR {
        Some(FeeIssue::FutureTimestamp)
    } else {
        None
    }
}

/// chrono's `Display` of the `DateTime<Utc>` at `ms` milliseconds since the epoch.
pub uninterp spec fn datetime_display(ms: i64) -> Seq<char>;

/// Renders an instant with chrono's `Display` for `DateTime<Utc>` (as in
/// `2024-01-01 12:00:00 UTC`). Stated: the text is the name `datetime_display` of the
/// instant; its layout is left to chrono.
#[verifier::external_body]
fn display_datetime(ms: i64) -> (r: String)
    requires
        timestamp_in_range(ms),
    ensures
        r@ == datetime_display(ms),
{
    match chrono::DateTime::<chrono::Utc>::from_timestamp_millis(ms) {
        Some(t) => t.to_string(),
        None => String::new(),
    }
}

/// The message that rejects the point `p` found at position `i`.
pub open spec fn issue_message(p: FeeDataPoint, i: nat, issue: FeeIssue) -> Seq<char> {
    match issue {
        FeeIssue::ZeroFee => "Zero fee amount at index "@ + decimal(i),
        FeeIssue::UnreasonablyLargeFee => "Unreasonably large fee amount "@ + decimal(p.fee_amount as nat)
            + " at index "@ + decimal(i),
        FeeIssue::EmptyTransactionHash => "Empty transaction hash at index "@ + decimal(i),
        FeeIssue::FutureTimestamp => "Future timestamp at index "@ + decimal(i) + ": "@ + datetime_display(
            p.timestamp,
        ),
    }
}

/// Every point of `data` has an instant chrono can represent.
pub open spec fn timestamps_in_range(data: Seq<FeeDataPoint>) -> bool {
    forall|i: int| 0 <= i < data.len() ==> timestamp_in_range(#[trigger] data[i].timestamp)
}

/// What validating `data` as of `now` gives: success when no point has a problem,
/// otherwise the rejection of the first point that has one.
pub open spec fn validation_result(data: Seq<FeeDataPoint>, now: i64, r: Result<(), InsightsError>) -> bool {
    &&& r is Ok <==> forall|i: int| 0 <= i < data.len() ==> issue_of(#[trigger] data[i], now) is None
    &&& r matches Err(e) ==> exists|i: int|
        {
            &&& 0 <= i < data.len()
            &&& forall|j: int| 0 <= j < i ==> issue_of(#[trigger] data[j], now) is None
            &&& issue_of(#[trigger] data[i], now) matches Some(issue)
            &&& e matches InsightsError::InvalidData(m)
            &&& m@ == issue_message(data[i], i as nat, issue)
        }
}

/// Validates fee data for basic correctness as of `now`: the first point that has a zero
/// fee, a fee above 1000 XLM, an empty transaction hash or a timestamp more than an hour
/// after `now` is rejected with a message naming its position.
pub fn validate_fee_data_at(data: &[FeeDataPoint], now: i64) -> (r: Result<(), InsightsError>)
    requires
        timestamps_in_range(data@),
    ensures
        validation_result(data@, now, r),
{
    let n = data.len();
    let mut i: usize = 0;
    while i < n
        invariant
            n == data@.len(),
            0 <= i <= n,
            timestamps_in_range(data@),
            forall|j: int| 0 <= j < i ==> issue_of(#[trigger] data@[j], now) is None,
        decreases n - i,
    {
        let p = &data[i];
        let mut out: Vec<char> = Vec::new();
        if p.fee_amount == 0 {
            push_str(&mut out, "Zero fee amount at index ");
            push_decimal(&mut out, i as u64);
            assert(out@ =~= issue_message(*p, i as nat, FeeIssue::ZeroFee));
            return Err(InsightsError::InvalidData(string_from_chars(&out)));
        }
        if p.fee_amount > MAX_REASONABLE_FEE {
            push_str(&mut out, "Unreasonably large fee amount ");
            push_decimal(&mut out, p.fee_amount);
            push_str(&mut out, " at index ");
            push_decimal(&mut out, i as u64);
            assert(out@ =~= issue_message(*p, i as nat, FeeIssue::UnreasonablyLargeFee));
            return Err(InsightsError::InvalidData(string_from_chars(&out)));
        }
        if p.transaction_hash.as_str().is_empty() {
            push_str(&mut out, "Empty transaction hash at index ");
            push_decimal(&mut out, i as u64);
            assert(out@ =~= issue_message(*p, i as nat, FeeIssue::EmptyTransactionHash));
            return Err(InsightsError::InvalidData(string_from_chars(&out)));
        }
        if p.timestamp as i128 > now as i128 + MILLIS_PER_HOUR as i128 {
            assert(timestamp_in_range(data@[i as int].timestamp));
            push_str(&mut out, "Future timestamp at index ");
            push_decimal(&mut out, i as u64);
            push_str(&mut out, ": ");
            let shown = display_datetime(p.timestamp);
            push_str(&mut out, shown.as_str());
            assert(out@ =~= issue_message(*p, i as nat, FeeIssue::FutureTimestamp));
            return Err(InsightsError::InvalidData(string_from_chars(&out)));
        }
        i = i + 1;
    }
    Ok(())
}

/// Validate fee data for basic correctness, as of the current time.
pub fn validate_fee_data(data: &[FeeDataPoint]) -> (r: Result<(), InsightsError>)
    requires
        timestamps_in_range(data@),
    ensures
        exists|now: i64| timestamp_in_range(now) && #[trigger] validation_result(data@, now, r),
{
    let now = crate::clock::now_millis();
    let r = validate_fee_data_at(data, now);
    assert(validation_result(data@, now, r));
    r
}

/// No point of `data` has a problem as of `now`.
pub open spec fn all_valid(data: Seq<FeeDataPoint>, now: i64) -> bool {
    forall|i: int| 0 <= i < data.len() ==> issue_of(#[trigger] data[i], now) is None
}

/// Message when a processing round receives no fee data.
pub open spec fn no_fee_data_text() -> Seq<char> {
    "No fee data provided"@
}

/// What one processing round of `data` as of `now` does to the rolling averages and the
/// extremes, and answers: empty or invalid data is refused and changes nothing; otherwise
/// every point is added to the averages' windows, the extremes are updated with the data,
/// and the three standard averages are computed.
pub open spec fn ingested(
    calc_before: RollingAverageCalculator,
    calc_after: RollingAverageCalculator,
    tracker_before: ExtremesTracker,
    tracker_after: ExtremesTracker,
    data: Seq<FeeDataPoint>,
    now: i64,
    r: Result<RollingAverages, InsightsError>,
) -> bool {
    &&& data.len() == 0 ==> {
        &&& r matches Err(InsightsError::InvalidData(m)) && m@ == no_fee_data_text()
        &&& calc_after == calc_before
        &&& tracker_after == tracker_before
    }
    &&& data.len() > 0 && !all_valid(data, now) ==> {
        &&& r matches Err(e) && validation_result(data, now, Err::<(), InsightsError>(e))
        &&& calc_after == calc_before
        &&& tracker_after == tracker_before
    }
    &&& data.len() > 0 && all_valid(data, now) ==> {
        &&& calc_after.configured_windows() == calc_before.configured_windows()
        &&& calc_after.capacity() == calc_before.capacity()
        &&& forall|k: (Seq<char>, i64, usize)| #[trigger] calc_after.samples(k) == samples_after_adds(calc_before, data, now, k)
        &&& updated_with_fees(tracker_before, tracker_after, data, now)
        &&& standard_averages(calc_after, now) matches Ok(a) ==> r == Ok::<RollingAverages, InsightsError>(a)
        &&& standard_averages(calc_after, now) matches Err(m) ==> (r matches Err(InsightsError::Config(e)) && e@ == m)
    }
}

/// One processing round of fee data as of `now` (see `ingested`): refuse empty data,
/// validate it, add every point to the rolling averages, update the extremes, and compute
/// the standard averages.
pub fn ingest_fee_data_at(
    calculator: &mut RollingAverageCalculator,
    tracker: &mut ExtremesTracker,
    data: &[FeeDataPoint],
    now: i64,
) -> (r: Result<RollingAverages, InsightsError>)
    requires
        old(calculator).well_formed(),
        timestamps_in_range(data@),
    ensures
        final(calculator).well_formed(),
        ingested(*old(calculator), *final(calculator), *old(tracker), *final(tracker), data@, now, r),
{
    if data.len() == 0 {
        proof {
            reveal_strlit("No fee data provided");
        }
        return Err(InsightsError::InvalidData(String::from_str("No fee data provided")));
    }
    let checked = validate_fee_data_at(data, now);
    match checked {
        Err(e) => {
            return Err(e);
        },
        Ok(()) => {},
    }
    calculator.add_data_points_at(data, now);
    let _ = tracker.update_with_fees_at(data, now);
    calculator.calculate_averages_at(now)
}

/// One processing round of fee data as of the current time (read once).
pub fn ingest_fee_data(
    calculator: &mut RollingAverageCalculator,
    tracker: &mut ExtremesTracker,
    data: &[FeeDataPoint],
) -> (r: Result<RollingAverages, InsightsError>)
    requires
        old(calculator).well_formed(),
        timestamps_in_range(data@),
    ensures
        final(calculator).well_formed(),
        exists|now: i64| timestamp_in_range(now) && #[trigger] ingested(*old(calculator), *final(calculator), *old(tracker), *final(tracker), data@, now, r),
{
    let now = crate::clock::now_millis();
    ingest_fee_data_at(calculator, tracker, data, now)
}

/// More than an hour lies between `p` and `processing_time`.
pub open spec fn is_stale(p: FeeDataPoint, processing_time: i64) -> bool {
    processing_time - p.timestamp > MILLIS_PER_HOUR
}

/// Whether the data has gaps: none at all, or a point more than an hour older than
/// `processing_time`.
pub fn has_data_gaps(data: &[FeeDataPoint], processing_time: i64) -> (r: bool)
    ensures
        r == (data@.len() == 0 || exists|i: int| 0 <= i < data@.len() && is_stale(#[trigger] data@[i], processing_time)),
{
    if data.len() == 0 {
        return true;
    }
    let mut i: usize = 0;
    while i < data.len()
        invariant
            0 <= i <= data@.len(),
            forall|j: int| 0 <= j < i ==> !is_stale(#[trigger] data@[j], processing_time),
        decreases data@.len() - i,
    {
        if processing_time as i128 - data[i].timestamp as i128 > MILLIS_PER_HOUR as i128 {
            assert(is_stale(data@[i as int], processing_time));
            return true;
        }
        i = i + 1;
    }
    false
}

/// Whole seconds in `ms` milliseconds, rounded toward zero (`num_seconds`).
pub open spec fn whole_seconds(ms: int) -> int {
    if ms >= 0 {
        ms / 1000
    } else {
        -((-ms) / 1000)
    }
}

/// `a / b` rounded toward zero.
pub open spec fn quotient_toward_zero(a: int, b: int) -> int {
    if (a >= 0) == (b > 0) {
        if a >= 0 {
            a / b
        } else {
            (-a) / (-b)
        }
    } else if a >= 0 {
        -(a / (-b))
    } else {
        -((-a) / b)
    }
}

/// How many polling intervals fit since the last update (at least one), or one before any
/// update.
pub open spec fn expected_points(last_update: Option<i64>, now: i64, polling_interval: i64) -> int {
    match last_update {
        None => 1,
        Some(last) => {
            let q = quotient_toward_zero(whole_seconds(now - last), whole_seconds(polling_interval as int));
            if q >= 1 {
                q
            } else {
                1
            }
        },
    }
}

fn seconds_toward_zero(ms: i128) -> (r: i128)
    requires
        -20_000_000_000_000_000_000 <= ms <= 20_000_000_000_000_000_000,
    ensures
        r == whole_seconds(ms as int),
        -20_000_000_000_000_000 <= r <= 20_000_000_000_000_000,
{
    if ms >= 0 {
        ms / 1000
    } else {
        -((-ms) / 1000)
    }
}

/// Estimate the expected number of data points: one per polling interval (whole seconds)
/// since the last update, at least one.
pub fn estimate_expected_data_points(last_update: Option<i64>, now: i64, polling_interval: i64) -> (r: usize)
    requires
        last_update matches Some(last) ==> timestamp_in_range(last) && timestamp_in_range(now) && whole_seconds(
            polling_interval as int,
        ) != 0,
    ensures
        r == #[verifier::truncate] (expected_points(last_update, now, polling_interval) as usize),
{
    match last_update {
        None => 1,
        Some(last) => {
            let elapsed = seconds_toward_zero(now as i128 - last as i128);
            let interval = seconds_toward_zero(polling_interval as i128);
            let q: i128 = if (elapsed >= 0) == (interval > 0) {
                if elapsed >= 0 {
                    elapsed / interval
                } else {
                    (-elapsed) / (-interval)
                }
            } else if elapsed >= 0 {
                -(elapsed / (-interval))
            } else {
                -((-elapsed) / interval)
            };
            let at_least_one: i128 = if q >= 1 {
                q
            } else {
                1
            };
            #[verifier::truncate]
            (at_least_one as usize)
        },
    }
}

/// The extremes reported before any fee was seen: the base fee, at `now`, from an unknown
/// transaction, over an empty period at `now`.
pub fn create_default_extremes(now: i64) -> (r: FeeExtremes)
    ensures
        r.current_min.value == DEFAULT_BASE_FEE,
        r.current_min.timestamp == now,
        r.current_min.transaction_hash@ == "unknown"@,
        r.current_max == r.current_min,
        r.period_start == now,
        r.period_end == now,
{
    let mut out: Vec<char> = Vec::new();
    push_str(&mut out, "unknown");
    let hash = string_from_chars(&out);
    let default_extreme = ExtremeValue { value: DEFAULT_BASE_FEE, timestamp: now, transaction_hash: hash };
    let copy = ExtremeValue {
        value: default_extreme.value,
        timestamp: default_extreme.timestamp,
        transaction_hash: default_extreme.transaction_hash.clone(),
    };
    FeeExtremes { current_min: default_extreme, current_max: copy, period_start: now, period_end: now }
}

} // verus!
