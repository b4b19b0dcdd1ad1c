//! Turning Horizon transaction records into fee data points.

use vstd::prelude::*;

use crate::clock::timestamp_in_range;
use crate::insights::types::FeeDataPoint;
use crate::netaddr::{digits_value, is_ascii_digit};
use crate::services::horizon::HorizonClient;
use crate::text::{push_str, string_from_chars};

verus! {

/// Errors of a fee data provider.
#[derive(Debug, Clone)]
pub enum ProviderError {
    /// The provider could not be reached, or answered with an error.
    NetworkError { message: String },
    /// The provider's answer could not be read.
    FormatError { message: String },
}

/// What a fee data provider offers.
#[derive(Debug, Clone, Copy, PartialEq, Eq, Structural)]
pub struct ProviderMetadata {
    pub supports_historical: bool,
    pub max_batch_size: usize,
    pub rate_limit_per_minute: Option<u32>,
    pub data_freshness_seconds: u64,
}

/// One transaction of Horizon's `GET /transactions` answer.
#[derive(Debug, Clone)]
pub struct HorizonTransactionRecord {
    pub hash: String,
    pub ledger: u64,
    pub created_at: String,
    pub fee_charged: String,
    pub successful: bool,
}

/// Fee data provider backed by a Horizon server.
pub struct HorizonFeeDataProvider {
    client: HorizonClient,
    metadata: ProviderMetadata,
}

/// How many transactions one fetch asks for.
pub const RECENT_TRANSACTIONS_LIMIT: u32 = 100;

/// The value of `s` when it is an optional `+` followed by one or more decimal digits,
/// as `u64::from_str` reads it; `None` for any other text.
pub open spec fn unsigned_text_value(s: Seq<char>) -> Option<nat> {
    let digits = if s.len() > 0 && s[0] == '+' {
        s.subrange(1, s.len() as int)
    } else {
        s
    };
    if digits.len() > 0 && forall|i: int| 0 <= i < digits.len() ==> is_ascii_digit(#[trigger] digits[i]) {
        Some(digits_value(digits))
    } else {
        None
    }
}

/// The text of the `ParseIntError` that `u64::from_str` gives for `s`.
pub uninterp spec fn u64_parse_error_text(s: Seq<char>) -> Seq<char>;

/// std's `u64::from_str`. Stated: it succeeds exactly on an optional `+` and decimal
/// digits whose value fits in a `u64`, with that value; the error's text (its `Display`)
/// is named, not spelt out.
#[verifier::external_body]
fn parse_u64(s: &str) -> (r: Result<u64, String>)
    ensures
        r is Ok ==> unsigned_text_value(s@) == Some(r->Ok_0 as nat),
        r is Err ==> (unsigned_text_value(s@) is None || unsigned_text_value(s@)->0 > u64::MAX),
        r is Err ==> r->Err_0@ == u64_parse_error_text(s@),
{
    <u64 as std::str::FromStr>::from_str(s).map_err(|e| e.to_string())
}

/// What chrono's `DateTime::parse_from_rfc3339` makes of `s`, taken to UTC in whole
/// milliseconds since the epoch, or the text of its `ParseError`.
pub uninterp spec fn rfc3339_millis(s: Seq<char>) -> Result<i64, Seq<char>>;

/// chrono's `DateTime::parse_from_rfc3339`, then `with_timezone(&Utc)` and
/// `timestamp_millis`. Stated: the outcome is the name `rfc3339_millis` of the text, and a
/// parsed instant lies in chrono's range.
#[verifier::external_body]
fn parse_rfc3339_millis(s: &str) -> (r: Result<i64, String>)
    ensures
        r is Ok ==> rfc3339_millis(s@) == Ok::<i64, Seq<char>>(r->Ok_0),
        r is Ok ==> timestamp_in_range(r->Ok_0),
        r is Err ==> rfc3339_millis(s@) == Err::<i64, Seq<char>>(r->Err_0@),
{
    match chrono::DateTime::parse_from_rfc3339(s) {
        Ok(t) => Ok(t.with_timezone(&chrono::Utc).timestamp_millis()),
        Err(e) => Err(e.to_string()),
    }
}

/// Message for a transaction that failed.
pub open spec fn unsuccessful_text() -> Seq<char> {
    "Transaction was not successful"@
}

/// Message for a fee that is not an unsigned number.
pub open spec fn invalid_fee_text(fee: Seq<char>) -> Seq<char> {
    "Invalid fee amount '"@ + fee + "': "@ + u64_parse_error_text(fee)
}

/// Message for a timestamp that is not RFC 3339.
pub open spec fn invalid_timestamp_text(ts: Seq<char>, reason: Seq<char>) -> Seq<char> {
    "Invalid timestamp '"@ + ts + "': "@ + reason
}

/// The fee point a record gives, or the message of the format error it gives.
pub open spec fn record_conversion(r: HorizonTransactionRecord) -> Result<FeeDataPoint, Seq<char>> {
    if !r.successful {
        Err(unsuccessful_text())
    } else {
        match unsigned_text_value(r.fee_charged@) {
            Some(v) if v <= u64::MAX => match rfc3339_millis(r.created_at@) {
                Ok(t) => Ok(
                    FeeDataPoint {
                        fee_amount: v as u64,
                        timestamp: t,
                        transaction_hash: r.hash,
                        ledger_sequence: r.ledger,
                    },
                ),
                Err(reason) => Err(invalid_timestamp_text(r.created_at@, reason)),
            },
            _ => Err(invalid_fee_text(r.fee_charged@)),
        }
    }
}

/// The fee points of the records that convert, in order.
pub open spec fn converted_points(records: Seq<HorizonTransactionRecord>) -> Seq<FeeDataPoint>
    decreases records.len(),
{
    if records.len() == 0 {
        Seq::empty()
    } else {
        let before = converted_points(records.drop_last());
        match record_conversion(records.last()) {
            Ok(p) => before.push(p),
            Err(_) => before,
        }
    }
}

/// Message when no record converts.
pub open spec fn no_valid_points_text() -> Seq<char> {
    "No valid fee data points found in recent transactions"@
}

fn format_error(chars: &Vec<char>) -> (r: ProviderError)
    ensures
        r matches ProviderError::FormatError { message } && message@ == chars@,
{
    ProviderError::FormatError { message: string_from_chars(chars) }
}

/// Convert a Horizon transaction record to a fee data point: only successful
/// transactions, with a fee that is an unsigned number and an RFC 3339 timestamp.
pub fn convert_to_fee_data_point(record: HorizonTransactionRecord) -> (r: Result<FeeDataPoint, ProviderError>)
    ensures
        match record_conversion(record) {
            Ok(p) => r matches Ok(q) && q == p,
            Err(m) => r matches Err(ProviderError::FormatError { message }) && message@ == m,
        },
        r matches Ok(p) ==> timestamp_in_range(p.timestamp),
{
    convert_record(&record)
}

fn convert_record(record: &HorizonTransactionRecord) -> (r: Result<FeeDataPoint, ProviderError>)
    ensures
        match record_conversion(*record) {
            Ok(p) => r matches Ok(q) && q == p,
            Err(m) => r matches Err(ProviderError::FormatError { message }) && message@ == m,
        },
        r matches Ok(p) ==> timestamp_in_range(p.timestamp),
{
    if !record.successful {
        let mut out: Vec<char> = Vec::new();
        push_str(&mut out, "Transaction was not successful");
        return Err(format_error(&out));
    }
    let fee_amount = match parse_u64(record.fee_charged.as_str()) {
        Ok(v) => v,
        Err(e) => {
            let mut out: Vec<char> = Vec::new();
            push_str(&mut out, "Invalid fee amount '");
            push_str(&mut out, record.fee_charged.as_str());
            push_str(&mut out, "': ");
            push_str(&mut out, e.as_str());
            assert(out@ =~= invalid_fee_text(record.fee_charged@));
            return Err(format_error(&out));
        },
    };
    let timestamp = match parse_rfc3339_millis(record.created_at.as_str()) {
        Ok(t) => t,
        Err(e) => {
            let mut out: Vec<char> = Vec::new();
            push_str(&mut out, "Invalid timestamp '");
            push_str(&mut out, record.created_at.as_str());
            push_str(&mut out, "': ");
            push_str(&mut out, e.as_str());
            assert(out@ =~= invalid_timestamp_text(record.created_at@, e@));
            return Err(format_error(&out));
        },
    };
    Ok(
        FeeDataPoint {
            fee_amount,
            timestamp,
            transaction_hash: record.hash.clone(),
            ledger_sequence: record.ledger,
        },
    )
}

/// The fee points of the records that convert, in order; a format error when none does.
pub fn collect_fee_points(records: Vec<HorizonTransactionRecord>) -> (r: Result<Vec<FeeDataPoint>, ProviderError>)
    ensures
        converted_points(records@).len() > 0 ==> (r matches Ok(v) && v@ == converted_points(records@)),
        converted_points(records@).len() == 0 ==> (r matches Err(ProviderError::FormatError { message })
            && message@ == no_valid_points_text()),
{
    let n = records.len();
    let mut points: Vec<FeeDataPoint> = Vec::new();
    let mut i: usize = 0;
    while i < n
        invariant
            n == records@.len(),
            0 <= i <= n,
            points@ == converted_points(records@.take(i as int)),
        decreases n - i,
    {
        proof {
            assert(records@.take(i + 1).drop_last() =~= records@.take(i as int));
        }
        match convert_record(&records[i]) {
            Ok(p) => points.push(p),
            Err(_) => {},
        }
        i = i + 1;
    }
    proof {
        assert(records@.take(n as int) =~= records@);
    }
    if points.len() == 0 {
        let mut out: Vec<char> = Vec::new();
        push_str(&mut out, "No valid fee data points found in recent transactions");
        return Err(format_error(&out));
    }
    Ok(points)
}

impl HorizonFeeDataProvider {
    /// A provider over `client`, with Horizon's limits: batches of up to 200, 3600
    /// requests a minute, data as fresh as a ledger close (5 s).
    pub fn new(client: HorizonClient) -> (r: Self)
        ensures
            r.client().base_url_text() == client.base_url_text(),
            r.metadata() == (ProviderMetadata {
                supports_historical: true,
                max_batch_size: 200,
                rate_limit_per_minute: Some(3600),
                data_freshness_seconds: 5,
            }),
    {
        let metadata = ProviderMetadata {
            supports_historical: true,
            max_batch_size: 200,
            rate_limit_per_minute: Some(3600),
            data_freshness_seconds: 5,
        };
        Self { client, metadata }
    }

    /// The Horizon client the provider fetches with.
    pub closed spec fn client(self) -> HorizonClient {
        self.client
    }

    /// What the provider offers.
    pub closed spec fn metadata(self) -> ProviderMetadata {
        self.metadata
    }

    /// Name of the provider.
    pub fn provider_name(&self) -> (r: &str)
        ensures
            r@ == "Horizon"@,
    {
        "Horizon"
    }

    /// What the provider offers.
    pub fn get_metadata(&self) -> (r: ProviderMetadata)
        ensures
            r == self.metadata(),
    {
        self.metadata
    }

    /// The Horizon client this provider fetches with.
    pub fn horizon_client(&self) -> (r: &HorizonClient)
        ensures
            *r == self.client(),
    {
        &self.client
    }

    /// Where the latest transactions are fetched from.
    pub fn recent_transactions_url(&self) -> (r: String)
        ensures
            r@ == crate::services::horizon::transactions_url_text(self.client().base_url_text(), RECENT_TRANSACTIONS_LIMIT),
    {
        self.client.transactions_url(RECENT_TRANSACTIONS_LIMIT)
    }
}

} // verus!
