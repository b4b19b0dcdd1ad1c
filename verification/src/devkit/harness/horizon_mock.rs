//! Request-independent decisions of the mock Horizon server: where the
//! `GET /fee_stats` body comes from, and the `GET /health` body.

use std::path::PathBuf;
use vstd::prelude::*;

use crate::text::{push_str, string_from_chars};

verus! {

#[verifier::external_type_specification]
#[verifier::external_body]
pub struct ExPathBuf(PathBuf);

/// Where the body of `GET /fee_stats` is taken from.
pub enum FeeStatsSource {
    /// An in-memory canned response, served as it is.
    Canned(String),
    /// An explicitly configured scenario file.
    File(PathBuf),
    /// The convention-based scenario file `src/harness/scenarios/{scenario}.json`.
    Conventional(String),
}

/// The convention-based location of a scenario's JSON file.
pub open spec fn conventional_scenario_path(scenario: Seq<char>) -> Seq<char> {
    "src/harness/scenarios/"@ + scenario + ".json"@
}

/// Body of `GET /health`: `{"status":"ok","scenario":"<name>"}`.
pub open spec fn health_body(scenario: Seq<char>) -> Seq<char> {
    "{\"status\":\"ok\",\"scenario\":\""@ + scenario + "\"}"@
}

/// Resolution order (highest precedence first): the canned response, the explicit
/// scenario path, then the convention-based path built from the scenario name.
pub fn resolve_fee_stats_source(
    fee_stats_response: Option<String>,
    scenario_path: Option<PathBuf>,
    scenario: &str,
) -> (r: FeeStatsSource)
    ensures
        fee_stats_response matches Some(canned) ==> r == FeeStatsSource::Canned(canned),
        fee_stats_response is None && scenario_path is Some ==> r == FeeStatsSource::File(
            scenario_path->0,
        ),
        fee_stats_response is None && scenario_path is None ==> (r matches FeeStatsSource::Conventional(p)
            && p@ == conventional_scenario_path(scenario@)),
{
    match fee_stats_response {
        Some(canned) => FeeStatsSource::Canned(canned),
        None => match scenario_path {
            Some(path) => FeeStatsSource::File(path),
            None => {
                let mut out: Vec<char> = Vec::new();
                push_str(&mut out, "src/harness/scenarios/");
                push_str(&mut out, scenario);
                push_str(&mut out, ".json");
                assert(out@ =~= conventional_scenario_path(scenario@));
                FeeStatsSource::Conventional(string_from_chars(&out))
            },
        },
    }
}

/// Returns the JSON body for `GET /health`.
pub fn health_payload(scenario: &str) -> (r: String)
    ensures
        r@ == health_body(scenario@),
{
    let mut out: Vec<char> = Vec::new();
    push_str(&mut out, "{\"status\":\"ok\",\"scenario\":\"");
    push_str(&mut out, scenario);
    push_str(&mut out, "\"}");
    assert(out@ =~= health_body(scenario@));
    string_from_chars(&out)
}

} // verus!
