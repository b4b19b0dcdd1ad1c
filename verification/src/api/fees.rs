//! Request-independent logic of the `/fees` routes.

use vstd::prelude::*;

use crate::devkit::analysis::percentile::seq_total;
use crate::insights::types::{FeeDataPoint, TrendIndicator, TrendStrength, MILLIS_PER_HOUR};
use crate::services::horizon::HorizonFeeStats;
use crate::sorting::{sort_values, sorted_values};
use crate::text::{push_str, string_from_chars};

verus! {

/// `max-age` (s) of `/fees/current`.
pub const FEES_CURRENT_MAX_AGE: u32 = 5;

/// `stale-while-revalidate` (s) of `/fees/current`.
pub const FEES_CURRENT_SWR: u32 = 10;

/// `max-age` (s) of `/fees/history`.
pub const FEES_HISTORY_MAX_AGE: u32 = 30;

/// `stale-while-revalidate` (s) of `/fees/history`.
pub const FEES_HISTORY_SWR: u32 = 60;

#[derive(Debug, Clone)]
pub struct PercentileFees {
    pub p10: String,
    pub p20: String,
    pub p30: String,
    pub p40: String,
    pub p50: String,
    pub p60: String,
    pub p70: String,
    pub p80: String,
    pub p90: String,
    pub p95: String,
    pub p99: String,
}

/// Body of `GET /fees/current`.
#[derive(Debug, Clone)]
pub struct CurrentFeeResponse {
    pub base_fee: String,
    pub min_fee: String,
    pub max_fee: String,
    pub avg_fee: String,
    pub percentiles: PercentileFees,
}

/// Query of `GET /fees/history`.
#[derive(Debug, Clone)]
pub struct FeeHistoryQuery {
    pub window: Option<String>,
}

/// Summary of the fees of a history window; the average is `total / data_points`.
#[derive(Debug, Clone, Copy, PartialEq, Eq, Structural)]
pub struct FeeSummary {
    pub min: u64,
    pub max: u64,
    /// Sum of the fee amounts.
    pub total: u64,
    pub data_points: usize,
    pub p50: u64,
    pub p95: u64,
}

/// Maps Horizon's `fee_stats` onto the `/fees/current` response, field by field.
pub fn current_fee_response_from_stats(stats: HorizonFeeStats) -> (r: CurrentFeeResponse)
    ensures
        r.base_fee == stats.last_ledger_base_fee,
        r.min_fee == stats.fee_charged.min,
        r.max_fee == stats.fee_charged.max,
        r.avg_fee == stats.fee_charged.avg,
        r.percentiles.p10 == stats.fee_charged.p10,
        r.percentiles.p20 == stats.fee_charged.p20,
        r.percentiles.p30 == stats.fee_charged.p30,
        r.percentiles.p40 == stats.fee_charged.p40,
        r.percentiles.p50 == stats.fee_charged.p50,
        r.percentiles.p60 == stats.fee_charged.p60,
        r.percentiles.p70 == stats.fee_charged.p70,
        r.percentiles.p80 == stats.fee_charged.p80,
        r.percentiles.p90 == stats.fee_charged.p90,
        r.percentiles.p95 == stats.fee_charged.p95,
        r.percentiles.p99 == stats.fee_charged.p99,
{
    CurrentFeeResponse {
        base_fee: stats.last_ledger_base_fee,
        min_fee: stats.fee_charged.min,
        max_fee: stats.fee_charged.max,
        avg_fee: stats.fee_charged.avg,
        percentiles: PercentileFees {
            p10: stats.fee_charged.p10,
            p20: stats.fee_charged.p20,
            p30: stats.fee_charged.p30,
            p40: stats.fee_charged.p40,
            p50: stats.fee_charged.p50,
            p60: stats.fee_charged.p60,
            p70: stats.fee_charged.p70,
            p80: stats.fee_charged.p80,
            p90: stats.fee_charged.p90,
            p95: stats.fee_charged.p95,
            p99: stats.fee_charged.p99,
        },
    }
}

/// Length (ms) of a supported history window: `1h`, `6h` or `24h`.
pub open spec fn history_window_length(s: Seq<char>) -> Option<i64> {
    if s == "1h"@ {
        Some(MILLIS_PER_HOUR)
    } else if s == "6h"@ {
        Some(21_600_000)
    } else if s == "24h"@ {
        Some(86_400_000)
    } else {
        None
    }
}

/// Length of the history window named by a query value (ms); `None` when unsupported.
pub fn parse_window(value: &str) -> (r: Option<i64>)
    ensures
        r == history_window_length(value@),
{
    if crate::text::str_eq(value, "1h") {
        Some(MILLIS_PER_HOUR)
    } else if crate::text::str_eq(value, "6h") {
        Some(21_600_000)
    } else if crate::text::str_eq(value, "24h") {
        Some(86_400_000)
    } else {
        None
    }
}

/// The window a history query asks for, `1h` when it names none.
pub fn requested_window(query: &FeeHistoryQuery) -> (r: String)
    ensures
        query.window matches Some(w) ==> r@ == w@,
        query.window is None ==> r@ == "1h"@,
{
    match &query.window {
        Some(w) => w.clone(),
        None => String::from_str("1h"),
    }
}

/// Nearest-rank index: rank `ceil(percentile * n / 100)` (at least 1), 1-based; the
/// rounding addend saturates at `usize::MAX`.
pub open spec fn summary_rank(n: nat, percentile: nat) -> int {
    let padded = if percentile * n + 99 > usize::MAX { usize::MAX as nat } else { percentile * n + 99 };
    let rank = padded / 100;
    if rank < 1 { 1 } else { rank as int }
}

/// Nearest-rank percentile of a sorted slice (0 when empty).
pub fn percentile_nearest_rank(sorted: &[u64], percentile: usize) -> (r: u64)
    requires
        sorted@.len() == 0 || (percentile <= 100 && percentile * sorted@.len() <= usize::MAX),
    ensures
        sorted@.len() == 0 ==> r == 0,
        sorted@.len() > 0 ==> r == sorted@[summary_rank(sorted@.len(), percentile as nat) - 1],
{
    if sorted.len() == 0 {
        return 0;
    }
    let n = sorted.len();
    proof {
        assert(percentile * n <= 100 * n) by (nonlinear_arith)
            requires
                percentile <= 100,
        ;
    }
    let rank_raw = (percentile * n).saturating_add(99) / 100;
    let rank = if rank_raw < 1 { 1 } else { rank_raw };
    sorted[rank - 1]
}

/// The fee amounts of `fees`, in order.
pub open spec fn fee_amounts(fees: Seq<FeeDataPoint>) -> Seq<u64> {
    fees.map_values(|p: FeeDataPoint| p.fee_amount)
}

/// Summary of a fee history: minimum, maximum, sum, count and the nearest-rank
/// p50 and p95 of the fee amounts in ascending order; all zero when there are none.
pub fn compute_summary(fees: &[FeeDataPoint]) -> (r: FeeSummary)
    requires
        seq_total(fee_amounts(fees@)) <= u64::MAX,
        95 * fees@.len() <= usize::MAX,
    ensures
        fees@.len() == 0 ==> r == (FeeSummary { min: 0, max: 0, total: 0, data_points: 0, p50: 0, p95: 0 }),
        fees@.len() > 0 ==> exists|sorted: Seq<u64>| {
            &&& sorted_values(sorted)
            &&& sorted.to_multiset() == fee_amounts(fees@).to_multiset()
            &&& r.min == sorted[0]
            &&& r.max == sorted.last()
            &&& r.total == seq_total(fee_amounts(fees@))
            &&& r.data_points == fees@.len()
            &&& r.p50 == sorted[summary_rank(sorted.len(), 50) - 1]
            &&& r.p95 == sorted[summary_rank(sorted.len(), 95) - 1]
        },
        fees@.len() > 0 ==> r.min <= r.p50 <= r.p95 <= r.max,
{
    if fees.len() == 0 {
        return FeeSummary { min: 0, max: 0, total: 0, data_points: 0, p50: 0, p95: 0 };
    }
    let n = fees.len();
    let mut values: Vec<u64> = Vec::with_capacity(n);
    let mut total: u64 = 0;
    let mut i: usize = 0;
    while i < n
        invariant
            n == fees@.len(),
            0 <= i <= n,
            values@ == fee_amounts(fees@.take(i as int)),
            total == seq_total(values@),
            seq_total(fee_amounts(fees@)) <= u64::MAX,
        decreases n - i,
    {
        proof {
            assert(fee_amounts(fees@.take(i + 1)) =~= fee_amounts(fees@.take(i as int)).push(
                fees@[i as int].fee_amount,
            ));
            lemma_total_prefix_bound(fee_amounts(fees@), i + 1);
            assert(fee_amounts(fees@).take(i + 1) =~= fee_amounts(fees@.take(i + 1)));
            assert(values@.push(fees@[i as int].fee_amount).drop_last() =~= values@);
        }
        total = total + fees[i].fee_amount;
        values.push(fees[i].fee_amount);
        i = i + 1;
    }
    proof {
        assert(fees@.take(n as int) =~= fees@);
    }
    let sorted = sort_values(&values);
    proof {
        vstd::seq_lib::to_multiset_len(sorted@);
        vstd::seq_lib::to_multiset_len(values@);
        assert(sorted@.len() == n);
    }
    let p50 = percentile_nearest_rank(sorted.as_slice(), 50);
    let p95 = percentile_nearest_rank(sorted.as_slice(), 95);
    let summary = FeeSummary { min: sorted[0], max: sorted[n - 1], total, data_points: n, p50, p95 };
    proof {
        lemma_summary_ranks(n as nat);
        assert(values@ =~= fee_amounts(fees@));
        let w = sorted@;
        assert(sorted_values(w) && w.to_multiset() == fee_amounts(fees@).to_multiset()
            && summary.min == w[0] && summary.max == w.last()
            && summary.total == seq_total(fee_amounts(fees@)) && summary.data_points == fees@.len()
            && summary.p50 == w[summary_rank(w.len(), 50) - 1]
            && summary.p95 == w[summary_rank(w.len(), 95) - 1]);
    }
    summary
}

/// The p50 rank comes no later than the p95 rank, and both lie within `1..=n`.
proof fn lemma_summary_ranks(n: nat)
    requires
        n >= 1,
        95 * n <= usize::MAX,
    ensures
        1 <= summary_rank(n, 50) <= summary_rank(n, 95) <= n,
{
    assert(50 * n <= 95 * n);
    assert((95 * n + 99) / 100 <= n);
}

/// The total of a prefix never exceeds the total of the whole sequence.
proof fn lemma_total_prefix_bound(s: Seq<u64>, k: int)
    requires
        0 <= k <= s.len(),
    ensures
        seq_total(s.take(k)) <= seq_total(s),
    decreases s.len(),
{
    if k < s.len() {
        assert(s.drop_last().take(k) =~= s.take(k));
        lemma_total_prefix_bound(s.drop_last(), k);
    } else {
        assert(s.take(k) =~= s);
    }
}

/// Human-readable name of a trend indicator.
pub open spec fn trend_indicator_text(indicator: TrendIndicator) -> Seq<char> {
    match indicator {
        TrendIndicator::Normal => "Normal"@,
        TrendIndicator::Rising => "Rising"@,
        TrendIndicator::Congested => "Congested"@,
        TrendIndicator::Declining => "Declining"@,
    }
}

/// Human-readable name of a trend strength.
pub open spec fn trend_strength_text(strength: TrendStrength) -> Seq<char> {
    match strength {
        TrendStrength::Weak => "Weak"@,
        TrendStrength::Moderate => "Moderate"@,
        TrendStrength::Strong => "Strong"@,
    }
}

/// The name under which a trend indicator is reported.
pub fn trend_indicator_to_string(indicator: &TrendIndicator) -> (r: String)
    ensures
        r@ == trend_indicator_text(*indicator),
{
    let text = match indicator {
        TrendIndicator::Normal => "Normal",
        TrendIndicator::Rising => "Rising",
        TrendIndicator::Congested => "Congested",
        TrendIndicator::Declining => "Declining",
    };
    String::from_str(text)
}

/// The name under which a trend strength is reported.
pub fn trend_strength_to_string(strength: &TrendStrength) -> (r: String)
    ensures
        r@ == trend_strength_text(*strength),
{
    let text = match strength {
        TrendStrength::Weak => "Weak",
        TrendStrength::Moderate => "Moderate",
        TrendStrength::Strong => "Strong",
    };
    String::from_str(text)
}


/// A cached response may be served while its age is below the time to live; an empty cache
/// is never fresh.
pub fn cache_is_fresh(age_ns: Option<u128>, ttl_ns: u128) -> (r: bool)
    ensures
        r == (age_ns matches Some(a) && a < ttl_ns),
{
    match age_ns {
        Some(a) => a < ttl_ns,
        None => false,
    }
}

} // verus!
