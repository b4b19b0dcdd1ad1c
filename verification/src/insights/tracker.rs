//! Extremes tracker for min/max fee values.

use std::collections::VecDeque;
use vstd::prelude::*;

use crate::clock::{timestamp_in_range, MAX_TIMESTAMP_MS, MIN_TIMESTAMP_MS};
use crate::insights::types::{ExtremeValue, FeeDataPoint, FeeExtremes, InsightsError, MILLIS_PER_HOUR};
use crate::text::{push_str, string_from_chars};

verus! {

/// How long a tracking period lasts and how many finished periods are kept.
#[derive(Debug, Clone, Copy)]
pub struct ExtremesConfig {
    /// Length of a tracking period (ms).
    pub tracking_period: i64,
    pub historical_periods_to_keep: usize,
}

impl Default for ExtremesConfig {
    fn default() -> (r: Self)
        ensures
            r.tracking_period == 24 * MILLIS_PER_HOUR,
            r.historical_periods_to_keep == 7,
    {
        ExtremesConfig { tracking_period: 86_400_000, historical_periods_to_keep: 7 }
    }
}

/// End of a period of length `length` that starts at `start`: `start + length`, held within
/// the instants that a `DateTime<Utc>` can hold.
pub open spec fn period_end_of(start: i64, length: i64) -> i64 {
    if start + length > MAX_TIMESTAMP_MS {
        MAX_TIMESTAMP_MS
    } else if start + length < MIN_TIMESTAMP_MS {
        MIN_TIMESTAMP_MS
    } else {
        (start + length) as i64
    }
}

fn compute_period_end(start: i64, length: i64) -> (r: i64)
    ensures
        r == period_end_of(start, length),
{
    let sum: i128 = start as i128 + length as i128;
    if sum > MAX_TIMESTAMP_MS as i128 {
        MAX_TIMESTAMP_MS
    } else if sum < MIN_TIMESTAMP_MS as i128 {
        MIN_TIMESTAMP_MS
    } else {
        sum as i64
    }
}

/// The extreme value that a fee point contributes.
pub open spec fn extreme_of(p: FeeDataPoint) -> ExtremeValue {
    ExtremeValue { value: p.fee_amount, timestamp: p.timestamp, transaction_hash: p.transaction_hash }
}

/// Whether `p` lies in the closed period `[start, end]`.
pub open spec fn in_period(p: FeeDataPoint, start: i64, end: i64) -> bool {
    start <= p.timestamp <= end
}

/// Lowest fee after processing `fees` in order: a point inside the period replaces the
/// current minimum when there is none or when its fee is not higher (so the most recent
/// of equal fees wins).
pub open spec fn fold_min(m: Option<ExtremeValue>, fees: Seq<FeeDataPoint>, start: i64, end: i64) -> Option<ExtremeValue>
    decreases fees.len(),
{
    if fees.len() == 0 {
        m
    } else {
        let prev = fold_min(m, fees.drop_last(), start, end);
        let p = fees.last();
        if in_period(p, start, end) && (prev is None || p.fee_amount <= prev->0.value) {
            Some(extreme_of(p))
        } else {
            prev
        }
    }
}

/// Highest fee after processing `fees` in order: a point inside the period replaces the
/// current maximum when there is none or when its fee is strictly higher (so the first of
/// equal fees stays).
pub open spec fn fold_max(m: Option<ExtremeValue>, fees: Seq<FeeDataPoint>, start: i64, end: i64) -> Option<ExtremeValue>
    decreases fees.len(),
{
    if fees.len() == 0 {
        m
    } else {
        let prev = fold_max(m, fees.drop_last(), start, end);
        let p = fees.last();
        if in_period(p, start, end) && (prev is None || p.fee_amount > prev->0.value) {
            Some(extreme_of(p))
        } else {
            prev
        }
    }
}

/// The minimum after folding `fees` into `m` is no higher than `m` and than any fee of the
/// period, and is `m` or one of those fees; with neither, there is none.
pub proof fn lemma_fold_min_is_lowest(m: Option<ExtremeValue>, fees: Seq<FeeDataPoint>, start: i64, end: i64)
    ensures
        ({
            let r = fold_min(m, fees, start, end);
            &&& m is Some ==> r is Some && r->0.value <= m->0.value
            &&& forall|i: int|
                0 <= i < fees.len() && in_period(#[trigger] fees[i], start, end) ==> r is Some && r->0.value
                    <= fees[i].fee_amount
            &&& r is Some ==> (r == m || exists|i: int|
                0 <= i < fees.len() && in_period(#[trigger] fees[i], start, end) && r == Some(extreme_of(fees[i])))
            &&& (m is None && forall|i: int| 0 <= i < fees.len() ==> !in_period(#[trigger] fees[i], start, end))
                ==> r is None
        }),
    decreases fees.len(),
{
    if fees.len() > 0 {
        let prev = fees.drop_last();
        lemma_fold_min_is_lowest(m, prev, start, end);
        let r = fold_min(m, fees, start, end);
        let pr = fold_min(m, prev, start, end);
        let last = fees.len() - 1;
        assert forall|i: int|
            0 <= i < fees.len() && in_period(#[trigger] fees[i], start, end) implies r is Some && r->0.value
                <= fees[i].fee_amount by {
            if i < last {
                assert(fees[i] == prev[i]);
            }
        }
        if r is Some && r != m {
            if r == pr {
                let i = choose|i: int|
                    0 <= i < prev.len() && in_period(#[trigger] prev[i], start, end) && pr == Some(extreme_of(prev[i]));
                assert(fees[i] == prev[i]);
            } else {
                assert(in_period(fees[last], start, end) && r == Some(extreme_of(fees[last])));
            }
        }
        if m is None && forall|i: int| 0 <= i < fees.len() ==> !in_period(#[trigger] fees[i], start, end) {
            assert forall|i: int| 0 <= i < prev.len() implies !in_period(#[trigger] prev[i], start, end) by {
                assert(prev[i] == fees[i]);
            }
            assert(!in_period(fees[last], start, end));
        }
    }
}

/// The maximum after folding `fees` into `m` is no lower than `m` and than any fee of the
/// period, and is `m` or one of those fees; with neither, there is none.
pub proof fn lemma_fold_max_is_highest(m: Option<ExtremeValue>, fees: Seq<FeeDataPoint>, start: i64, end: i64)
    ensures
        ({
            let r = fold_max(m, fees, start, end);
            &&& m is Some ==> r is Some && r->0.value >= m->0.value
            &&& forall|i: int|
                0 <= i < fees.len() && in_period(#[trigger] fees[i], start, end) ==> r is Some && r->0.value
                    >= fees[i].fee_amount
            &&& r is Some ==> (r == m || exists|i: int|
                0 <= i < fees.len() && in_period(#[trigger] fees[i], start, end) && r == Some(extreme_of(fees[i])))
            &&& (m is None && forall|i: int| 0 <= i < fees.len() ==> !in_period(#[trigger] fees[i], start, end))
                ==> r is None
        }),
    decreases fees.len(),
{
    if fees.len() > 0 {
        let prev = fees.drop_last();
        lemma_fold_max_is_highest(m, prev, start, end);
        let r = fold_max(m, fees, start, end);
        let pr = fold_max(m, prev, start, end);
        let last = fees.len() - 1;
        assert forall|i: int|
            0 <= i < fees.len() && in_period(#[trigger] fees[i], start, end) implies r is Some && r->0.value
                >= fees[i].fee_amount by {
            if i < last {
                assert(fees[i] == prev[i]);
            }
        }
        if r is Some && r != m {
            if r == pr {
                let i = choose|i: int|
                    0 <= i < prev.len() && in_period(#[trigger] prev[i], start, end) && pr == Some(extreme_of(prev[i]));
                assert(fees[i] == prev[i]);
            } else {
                assert(in_period(fees[last], start, end) && r == Some(extreme_of(fees[last])));
            }
        }
        if m is None && forall|i: int| 0 <= i < fees.len() ==> !in_period(#[trigger] fees[i], start, end) {
            assert forall|i: int| 0 <= i < prev.len() implies !in_period(#[trigger] prev[i], start, end) by {
                assert(prev[i] == fees[i]);
            }
            assert(!in_period(fees[last], start, end));
        }
    }
}

/// Starting from an empty period, the lowest fee found never exceeds the highest.
pub proof fn lemma_min_not_above_max(fees: Seq<FeeDataPoint>, start: i64, end: i64)
    ensures
        fold_min(None, fees, start, end) is Some <==> fold_max(None, fees, start, end) is Some,
        fold_min(None, fees, start, end) is Some ==> fold_min(None, fees, start, end)->0.value <= fold_max(
            None,
            fees,
            start,
            end,
        )->0.value,
{
    lemma_fold_min_is_lowest(None, fees, start, end);
    lemma_fold_max_is_highest(None, fees, start, end);
    let lo = fold_min(None, fees, start, end);
    let hi = fold_max(None, fees, start, end);
    if lo is Some {
        let i = choose|i: int|
            0 <= i < fees.len() && in_period(#[trigger] fees[i], start, end) && lo == Some(extreme_of(fees[i]));
        assert(hi is Some && hi->0.value >= fees[i].fee_amount);
    }
    if hi is Some {
        let j = choose|i: int|
            0 <= i < fees.len() && in_period(#[trigger] fees[i], start, end) && hi == Some(extreme_of(fees[i]));
        assert(lo is Some);
    }
}

/// Represents a tracking period for extremes
#[derive(Debug)]
struct ExtremePeriod {
    min_value: Option<ExtremeValue>,
    max_value: Option<ExtremeValue>,
    period_start: i64,
    period_end: i64,
}

fn copy_extreme(v: &ExtremeValue) -> (r: ExtremeValue)
    ensures
        r == *v,
{
    ExtremeValue { value: v.value, timestamp: v.timestamp, transaction_hash: v.transaction_hash.clone() }
}

impl ExtremePeriod {
    fn new(start: i64, end: i64) -> (r: Self)
        ensures
            r.min_value is None,
            r.max_value is None,
            r.period_start == start,
            r.period_end == end,
    {
        Self { min_value: None, max_value: None, period_start: start, period_end: end }
    }

    fn update_with_fee(&mut self, fee_point: &FeeDataPoint)
        ensures
            final(self).period_start == old(self).period_start,
            final(self).period_end == old(self).period_end,
            final(self).min_value == (if old(self).min_value is None || fee_point.fee_amount <= old(self).min_value->0.value {
                Some(extreme_of(*fee_point))
            } else {
                old(self).min_value
            }),
            final(self).max_value == (if old(self).max_value is None || fee_point.fee_amount > old(self).max_value->0.value {
                Some(extreme_of(*fee_point))
            } else {
                old(self).max_value
            }),
    {
        let replace_min = match &self.min_value {
            None => true,
            Some(current_min) => fee_point.fee_amount <= current_min.value,
        };
        if replace_min {
            self.min_value = Some(
                ExtremeValue {
                    value: fee_point.fee_amount,
                    timestamp: fee_point.timestamp,
                    transaction_hash: fee_point.transaction_hash.clone(),
                },
            );
        }
        let replace_max = match &self.max_value {
            None => true,
            Some(current_max) => fee_point.fee_amount > current_max.value,
        };
        if replace_max {
            self.max_value = Some(
                ExtremeValue {
                    value: fee_point.fee_amount,
                    timestamp: fee_point.timestamp,
                    transaction_hash: fee_point.transaction_hash.clone(),
                },
            );
        }
    }

    fn to_fee_extremes(&self) -> (r: Option<FeeExtremes>)
        ensures
            (self.min_value is Some && self.max_value is Some) ==> r == Some(
                FeeExtremes {
                    current_min: self.min_value->0,
                    current_max: self.max_value->0,
                    period_start: self.period_start,
                    period_end: self.period_end,
                },
            ),
            !(self.min_value is Some && self.max_value is Some) ==> r is None,
    {
        match (&self.min_value, &self.max_value) {
            (Some(min), Some(max)) => Some(
                FeeExtremes {
                    current_min: copy_extreme(min),
                    current_max: copy_extreme(max),
                    period_start: self.period_start,
                    period_end: self.period_end,
                },
            ),
            _ => None,
        }
    }
}

/// A tracking period as its minimum, maximum, start and end.
pub type PeriodSummary = (Option<ExtremeValue>, Option<ExtremeValue>, i64, i64);

spec fn summary_of(p: ExtremePeriod) -> PeriodSummary {
    (p.min_value, p.max_value, p.period_start, p.period_end)
}

/// The finished periods kept after `current` is archived behind `history`: the most recent
/// `keep` of them.
pub open spec fn archived(history: Seq<PeriodSummary>, current: PeriodSummary, keep: nat) -> Seq<PeriodSummary> {
    let pushed = history.push(current);
    if pushed.len() > keep {
        pushed.skip(pushed.len() - keep)
    } else {
        pushed
    }
}

/// `after` is `before` updated with `fees` at time `now`: when `now` has reached the end of
/// the current period, that period is archived and a new one starts at `now`, with no
/// extremes yet; then every fee inside the (new) period is folded into its minimum and
/// maximum.
pub open spec fn updated_with_fees(before: ExtremesTracker, after: ExtremesTracker, fees: Seq<FeeDataPoint>, now: i64) -> bool {
    &&& after.config() == before.config()
    &&& now >= before.period_end() ==> {
        &&& after.period_start() == now
        &&& after.period_end() == period_end_of(now, before.config().tracking_period)
        &&& after.current_min() == fold_min(None, fees, after.period_start(), after.period_end())
        &&& after.current_max() == fold_max(None, fees, after.period_start(), after.period_end())
        &&& after.history() == archived(
            before.history(),
            before.current_summary(),
            before.config().historical_periods_to_keep as nat,
        )
    }
    &&& now < before.period_end() ==> {
        &&& after.period_start() == before.period_start()
        &&& after.period_end() == before.period_end()
        &&& after.current_min() == fold_min(before.current_min(), fees, before.period_start(), before.period_end())
        &&& after.current_max() == fold_max(before.current_max(), fees, before.period_start(), before.period_end())
        &&& after.history() == before.history()
    }
}

/// Tracker for minimum and maximum fee values
pub struct ExtremesTracker {
    config: ExtremesConfig,
    current_period: ExtremePeriod,
    historical_periods: VecDeque<ExtremePeriod>,
}

/// Message when the current period holds no fee yet.
pub open spec fn no_extremes_text() -> Seq<char> {
    "No fee data available for current period"@
}

impl ExtremesTracker {
    /// The tracker's configuration.
    pub closed spec fn config(self) -> ExtremesConfig {
        self.config
    }

    /// Lowest fee of the current period, if any.
    pub closed spec fn current_min(self) -> Option<ExtremeValue> {
        self.current_period.min_value
    }

    /// Highest fee of the current period, if any.
    pub closed spec fn current_max(self) -> Option<ExtremeValue> {
        self.current_period.max_value
    }

    /// Start of the current period (ms).
    pub closed spec fn period_start(self) -> i64 {
        self.current_period.period_start
    }

    /// End of the current period (ms).
    pub closed spec fn period_end(self) -> i64 {
        self.current_period.period_end
    }

    /// Number of finished periods kept.
    pub closed spec fn history_len(self) -> nat {
        self.historical_periods@.len()
    }

    /// The finished periods kept, oldest first, each as its minimum, maximum, start and end.
    pub closed spec fn history(self) -> Seq<PeriodSummary> {
        self.historical_periods@.map_values(|p: ExtremePeriod| summary_of(p))
    }

    /// The current period as its minimum, maximum, start and end.
    pub closed spec fn current_summary(self) -> PeriodSummary {
        summary_of(self.current_period)
    }

    /// Starts tracking at `now`, for one tracking period.
    pub fn new_at(config: ExtremesConfig, now: i64) -> (r: Self)
        ensures
            r.config() == config,
            r.current_min() is None,
            r.current_max() is None,
            r.period_start() == now,
            r.period_end() == period_end_of(now, config.tracking_period),
            r.history_len() == 0,
    {
        let period_end = compute_period_end(now, config.tracking_period);
        Self {
            config,
            current_period: ExtremePeriod::new(now, period_end),
            historical_periods: VecDeque::new(),
        }
    }

    /// Create a new extremes tracker
    pub fn new(config: ExtremesConfig) -> (r: Self)
        ensures
            r.config() == config,
            r.current_min() is None,
            r.current_max() is None,
            r.period_end() == period_end_of(r.period_start(), config.tracking_period),
            r.history_len() == 0,
    {
        let now = crate::clock::now_millis();
        Self::new_at(config, now)
    }

    /// Rotate to a new tracking period, preserving the current period as historical
    fn rotate_period(&mut self, current_time: i64)
        ensures
            final(self).config() == old(self).config(),
            final(self).current_min() is None,
            final(self).current_max() is None,
            final(self).period_start() == current_time,
            final(self).period_end() == period_end_of(current_time, old(self).config().tracking_period),
            final(self).history_len() == if old(self).history_len() + 1 > old(self).config().historical_periods_to_keep {
                old(self).config().historical_periods_to_keep as nat
            } else {
                old(self).history_len() + 1
            },
            final(self).history() == archived(
                old(self).history(),
                old(self).current_summary(),
                old(self).config().historical_periods_to_keep as nat,
            ),
    {
        let period_end = compute_period_end(current_time, self.config.tracking_period);
        let mut completed_period = ExtremePeriod::new(current_time, period_end);
        std::mem::swap(&mut self.current_period, &mut completed_period);
        self.historical_periods.push_back(completed_period);
        let ghost pushed_len = self.historical_periods@.len();
        let ghost pushed = self.historical_periods@;
        proof {
            assert(pushed.map_values(|p: ExtremePeriod| summary_of(p)) =~= old(self).history().push(
                old(self).current_summary(),
            ));
            assert(pushed.skip(0) =~= pushed);
        }
        while self.historical_periods.len() > self.config.historical_periods_to_keep
            invariant
                self.config == old(self).config,
                self.current_period.min_value is None,
                self.current_period.max_value is None,
                self.current_period.period_start == current_time,
                self.current_period.period_end == period_end,
                pushed_len == old(self).historical_periods@.len() + 1,
                self.historical_periods@.len() == pushed_len || (self.config.historical_periods_to_keep
                    <= self.historical_periods@.len() < pushed_len),
                pushed.len() == pushed_len,
                self.historical_periods@ == pushed.skip(pushed_len - self.historical_periods@.len()),
            decreases self.historical_periods@.len(),
        {
            let ghost before = self.historical_periods@;
            self.historical_periods.pop_front();
            proof {
                assert(self.historical_periods@ =~= pushed.skip(pushed_len - self.historical_periods@.len()));
            }
        }
        proof {
            let keep = old(self).config().historical_periods_to_keep as nat;
            let k = pushed_len - self.historical_periods@.len();
            assert(self.history() =~= pushed.map_values(|p: ExtremePeriod| summary_of(p)).skip(k));
            if pushed_len > keep {
                assert(k == pushed_len - keep);
            } else {
                assert(k == 0);
                assert(pushed.map_values(|p: ExtremePeriod| summary_of(p)).skip(0) =~= pushed.map_values(
                    |p: ExtremePeriod| summary_of(p),
                ));
            }
        }
    }

    /// Update with new fee data as of `now`: when `now` has reached the end of the current
    /// period a new period starts at `now`; then every fee inside the (new) period is
    /// folded into its minimum and maximum.
    pub fn update_with_fees_at(&mut self, fees: &[FeeDataPoint], now: i64) -> (r: Result<(), InsightsError>)
        ensures
            r is Ok,
            updated_with_fees(*old(self), *final(self), fees@, now),
            final(self).config() == old(self).config(),
            now >= old(self).period_end() ==> ({
                &&& final(self).period_start() == now
                &&& final(self).period_end() == period_end_of(now, old(self).config().tracking_period)
                &&& final(self).current_min() == fold_min(None, fees@, final(self).period_start(), final(self).period_end())
                &&& final(self).current_max() == fold_max(None, fees@, final(self).period_start(), final(self).period_end())
            }),
            now < old(self).period_end() ==> ({
                &&& final(self).period_start() == old(self).period_start()
                &&& final(self).period_end() == old(self).period_end()
                &&& final(self).current_min() == fold_min(old(self).current_min(), fees@, old(self).period_start(), old(self).period_end())
                &&& final(self).current_max() == fold_max(old(self).current_max(), fees@, old(self).period_start(), old(self).period_end())
                &&& final(self).history_len() == old(self).history_len()
            }),
    {
        if now >= self.current_period.period_end {
            self.rotate_period(now);
        }
        let ghost after_rotation = self.historical_periods@;
        let ghost ps = self.current_period.period_start;
        let ghost pe = self.current_period.period_end;
        let ghost m0 = self.current_period.min_value;
        let ghost x0 = self.current_period.max_value;
        let n = fees.len();
        let mut i: usize = 0;
        while i < n
            invariant
                n == fees@.len(),
                0 <= i <= n,
                self.config == old(self).config,
                self.historical_periods@ == after_rotation,
                self.current_period.period_start == ps,
                self.current_period.period_end == pe,
                self.current_period.min_value == fold_min(m0, fees@.take(i as int), self.current_period.period_start, self.current_period.period_end),
                self.current_period.max_value == fold_max(x0, fees@.take(i as int), self.current_period.period_start, self.current_period.period_end),
            decreases n - i,
        {
            proof {
                assert(fees@.take(i + 1).drop_last() =~= fees@.take(i as int));
            }
            let fee_point = &fees[i];
            if fee_point.timestamp >= self.current_period.period_start
                && fee_point.timestamp <= self.current_period.period_end {
                self.current_period.update_with_fee(fee_point);
            }
            i = i + 1;
        }
        proof {
            assert(fees@.take(n as int) =~= fees@);
        }
        Ok(())
    }

    /// Update with new fee data
    pub fn update_with_fees(&mut self, fees: &[FeeDataPoint]) -> (r: Result<(), InsightsError>)
        ensures
            r is Ok,
            final(self).config() == old(self).config(),
            exists|now: i64| timestamp_in_range(now) && #[trigger] updated_with_fees(*old(self), *final(self), fees@, now),
    {
        let now = crate::clock::now_millis();
        self.update_with_fees_at(fees, now)
    }

    /// Whether the current period has seen a fee.
    pub fn has_current_data(&self) -> (r: bool)
        ensures
            r == (self.current_min() is Some && self.current_max() is Some),
    {
        self.current_period.min_value.is_some() && self.current_period.max_value.is_some()
    }

    /// Get current extremes
    pub fn get_current_extremes(&self) -> (r: Result<FeeExtremes, InsightsError>)
        ensures
            (self.current_min() is Some && self.current_max() is Some) ==> r == Ok::<FeeExtremes, InsightsError>(
                FeeExtremes {
                    current_min: self.current_min()->0,
                    current_max: self.current_max()->0,
                    period_start: self.period_start(),
                    period_end: self.period_end(),
                },
            ),
            !(self.current_min() is Some && self.current_max() is Some) ==> (r matches Err(InsightsError::InsufficientData(m))
                && m@ == no_extremes_text()),
    {
        match self.current_period.to_fee_extremes() {
            Some(e) => Ok(e),
            None => {
                let mut out: Vec<char> = Vec::new();
                push_str(&mut out, "No fee data available for current period");
                assert(out@ =~= no_extremes_text());
                Err(InsightsError::InsufficientData(string_from_chars(&out)))
            },
        }
    }
}

} // verus!
