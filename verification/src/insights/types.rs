//! Data types of the fee insights engine. Instants are milliseconds since the
//! Unix epoch; durations are milliseconds.

use vstd::prelude::*;

verus! {

/// Milliseconds in a minute.
pub const MILLIS_PER_MINUTE: i64 = 60_000;

/// Milliseconds in an hour.
pub const MILLIS_PER_HOUR: i64 = 3_600_000;

/// One observed transaction fee.
#[derive(Debug, Clone)]
pub struct FeeDataPoint {
    /// Fee charged, in stroops.
    pub fee_amount: u64,
    /// When the transaction was observed (ms since the Unix epoch).
    pub timestamp: i64,
    pub transaction_hash: String,
    pub ledger_sequence: u64,
}

impl FeeDataPoint {
    /// A field-by-field copy of this point.
    pub fn duplicate(&self) -> (r: Self)
        ensures
            r == *self,
    {
        FeeDataPoint {
            fee_amount: self.fee_amount,
            timestamp: self.timestamp,
            transaction_hash: self.transaction_hash.clone(),
            ledger_sequence: self.ledger_sequence,
        }
    }
}

/// Severity of a fee spike, from its ratio to the baseline.
#[derive(Debug, Clone, Copy, PartialEq, Eq, Structural, Hash)]
pub enum SpikeSeverity {
    Minor,
    Moderate,
    Major,
    Critical,
}

/// How strongly recent spikes point to congestion.
#[derive(Debug, Clone, Copy, PartialEq, Eq, Structural, Hash)]
pub enum TrendStrength {
    Weak,
    Moderate,
    Strong,
}

/// Direction of the congestion trend.
#[derive(Debug, Clone, Copy, PartialEq, Eq, Structural, Hash)]
pub enum TrendIndicator {
    Normal,
    Rising,
    Congested,
    Declining,
}

/// A named rolling window over recent fees.
#[derive(Debug, Clone)]
pub struct TimeWindow {
    pub name: String,
    /// Length of the window (ms).
    pub duration: i64,
    /// Samples below which an average is reported as partial.
    pub min_samples: usize,
}

impl TimeWindow {
    /// A field-by-field copy of this window.
    pub fn duplicate(&self) -> (r: Self)
        ensures
            r == *self,
    {
        TimeWindow {
            name: self.name.clone(),
            duration: self.duration,
            min_samples: self.min_samples,
        }
    }

    /// Whether two windows are the same (same name, duration and sample threshold).
    pub fn same_as(&self, other: &TimeWindow) -> (r: bool)
        ensures
            r == (self.name@ == other.name@ && self.duration == other.duration
                && self.min_samples == other.min_samples),
    {
        self.name == other.name && self.duration == other.duration && self.min_samples
            == other.min_samples
    }
}

/// The rolling average of one window, as the exact sum and count of its samples.
#[derive(Debug, Clone)]
pub struct AverageResult {
    /// Sum of the fee amounts in the window.
    pub total_fee: u128,
    pub sample_count: usize,
    /// Fewer samples than the window's `min_samples`.
    pub is_partial: bool,
    pub calculated_at: i64,
    pub time_window: TimeWindow,
}

/// Averages over the three standard windows.
#[derive(Debug, Clone)]
pub struct RollingAverages {
    pub short_term: AverageResult,
    pub medium_term: AverageResult,
    pub long_term: AverageResult,
}

/// A fee together with when and where it was observed.
#[derive(Debug, Clone)]
pub struct ExtremeValue {
    pub value: u64,
    pub timestamp: i64,
    pub transaction_hash: String,
}

/// Lowest and highest fees of a tracking period.
#[derive(Debug, Clone)]
pub struct FeeExtremes {
    pub current_min: ExtremeValue,
    pub current_max: ExtremeValue,
    pub period_start: i64,
    pub period_end: i64,
}

/// Errors of the insights engine.
#[derive(Debug, Clone)]
pub enum InsightsError {
    /// The engine's configuration is inconsistent.
    Config(String),
    /// The input data was rejected.
    InvalidData(String),
    /// Not enough data for the requested result.
    InsufficientData(String),
}

impl InsightsError {
    /// The error's message.
    pub open spec fn message_text(self) -> Seq<char> {
        match self {
            InsightsError::Config(m) => m@,
            InsightsError::InvalidData(m) => m@,
            InsightsError::InsufficientData(m) => m@,
        }
    }

    /// The error's message, as text.
    pub fn to_string(&self) -> (r: String)
        ensures
            r@ == self.message_text(),
    {
        match self {
            InsightsError::Config(m) => m.clone(),
            InsightsError::InvalidData(m) => m.clone(),
            InsightsError::InsufficientData(m) => m.clone(),
        }
    }
}

} // verus!
