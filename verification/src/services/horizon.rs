//! Client of the Horizon API: where its endpoints are, and the shapes of the
//! `fee_stats` response.

use vstd::prelude::*;

use crate::text::{decimal, push_decimal, push_str, string_from_chars};

verus! {

#[verifier::external_type_specification]
#[verifier::external_body]
pub struct ExHttpClient(reqwest::Client);

/// reqwest's `Client::builder().no_proxy().build()`, and `Client::new()` should that
/// builder fail: a pooled HTTP client that ignores proxy settings of the environment.
/// Nothing is stated of the client.
#[verifier::external_body]
fn pooled_http_client() -> reqwest::Client {
    reqwest::Client::builder().no_proxy().build().unwrap_or_else(|_| reqwest::Client::new())
}

/// reqwest's `Clone` for `Client`: another handle on the same connection pool. Nothing
/// is stated of the copy.
pub assume_specification[ <reqwest::Client as std::clone::Clone>::clone ](client: &reqwest::Client) -> reqwest::Client;

/// Client of one Horizon server, sharing one pooled HTTP client between its requests.
#[derive(Clone)]
pub struct HorizonClient {
    base_url: String,
    http: reqwest::Client,
}

/// The URL of Horizon's fee statistics under `base_url`.
pub open spec fn fee_stats_url_text(base_url: Seq<char>) -> Seq<char> {
    base_url + "/fee_stats"@
}

/// The URL of the latest `limit` transactions, newest first, under `base_url`.
pub open spec fn transactions_url_text(base_url: Seq<char>, limit: u32) -> Seq<char> {
    base_url + "/transactions?order=desc&limit="@ + decimal(limit as nat)
}

impl HorizonClient {
    /// The server's base URL, as given.
    pub closed spec fn base_url_text(self) -> Seq<char> {
        self.base_url@
    }

    /// The pooled HTTP client that all requests to this server share.
    pub closed spec fn shared_client(self) -> reqwest::Client {
        self.http
    }

    /// A client of the server at `base_url`.
    pub fn new(base_url: String) -> (r: Self)
        ensures
            r.base_url_text() == base_url@,
    {
        let http = pooled_http_client();
        Self { base_url, http }
    }

    /// The server's base URL.
    pub fn base_url(&self) -> (r: &str)
        ensures
            r@ == self.base_url_text(),
    {
        self.base_url.as_str()
    }

    /// The shared HTTP client, for requests to this server.
    pub fn http_client(&self) -> (r: &reqwest::Client)
        ensures
            *r == self.shared_client(),
    {
        &self.http
    }

    /// Where the fee statistics are fetched from.
    pub fn fee_stats_url(&self) -> (r: String)
        ensures
            r@ == fee_stats_url_text(self.base_url_text()),
    {
        let mut out: Vec<char> = Vec::new();
        push_str(&mut out, self.base_url.as_str());
        push_str(&mut out, "/fee_stats");
        string_from_chars(&out)
    }

    /// Where the latest `limit` transactions are fetched from.
    pub fn transactions_url(&self, limit: u32) -> (r: String)
        ensures
            r@ == transactions_url_text(self.base_url_text(), limit),
    {
        let mut out: Vec<char> = Vec::new();
        push_str(&mut out, self.base_url.as_str());
        push_str(&mut out, "/transactions?order=desc&limit=");
        push_decimal(&mut out, limit as u64);
        assert(out@ =~= transactions_url_text(self.base_url_text(), limit));
        string_from_chars(&out)
    }
}

/// The part of Horizon's `GET /fee_stats` response that the tracker reads.
#[derive(Debug, Clone)]
pub struct HorizonFeeStats {
    pub last_ledger_base_fee: String,
    pub fee_charged: FeeCharged,
}

/// Distribution of fees charged in the last ledger.
#[derive(Debug, Clone)]
pub struct FeeCharged {
    pub min: String,
    pub max: String,
    /// The arithmetic mean fee charged across all transactions in the ledger.
    /// Horizon exposes this as `"avg"` in the fee_stats response.
    pub avg: String,
    pub p10: String,
    pub p20: String,
    pub p30: String,
    pub p40: String,
    pub p50: String,
    pub p60: String,
    pub p70: String,
    pub p80: String,
    pub p90: String,
    pub p95: String,
    pub p99: String,
}

} // verus!
