//! Unified error type for the devkit.

use vstd::prelude::*;

use crate::text::{push_str, string_from_chars};

verus! {

#[verifier::external_type_specification]
#[verifier::external_body]
pub struct ExIoError(std::io::Error);

/// Unified error type for the devkit.
#[derive(Debug)]
pub enum DevkitError {
    /// An error originating from the simulation engine (e.g. invalid parameters
    /// or model configuration failures).
    Simulation(String),
    /// An error originating from the test harness (e.g. failed to start the
    /// mock server or load a scenario file).
    Harness(String),
    /// An error originating from the analysis layer (e.g. insufficient data
    /// points for percentile computation or rolling-window operations).
    Analysis(String),
    /// A wrapper around [`std::io::Error`] for file and network I/O
    /// failures encountered while loading scenario data or writing output.
    Io(std::io::Error),
}


/// The message of an error whose text the library composes: the layer's name, `: `, and
/// the detail.
pub open spec fn devkit_error_text(e: DevkitError) -> Option<Seq<char>> {
    match e {
        DevkitError::Simulation(m) => Some("simulation error: "@ + m@),
        DevkitError::Harness(m) => Some("harness error: "@ + m@),
        DevkitError::Analysis(m) => Some("analysis error: "@ + m@),
        DevkitError::Io(_) => None,
    }
}

/// `std::io::Error`'s `Display` text (`ToString::to_string`). Nothing is claimed of it:
/// for an OS error it is the system's message, which depends on the machine.
#[verifier::external_body]
fn io_error_text(e: &std::io::Error) -> (r: String) {
    e.to_string()
}

impl DevkitError {
    /// The error's message: `simulation error: `, `harness error: `, `analysis error: ` or
    /// `io error: `, followed by the detail.
    pub fn message(&self) -> (r: String)
        ensures
            devkit_error_text(*self) matches Some(t) ==> r@ == t,
            self is Io ==> exists|t: Seq<char>| r@ == "io error: "@ + t,
    {
        let mut out: Vec<char> = Vec::new();
        match self {
            DevkitError::Simulation(m) => {
                push_str(&mut out, "simulation error: ");
                push_str(&mut out, m.as_str());
            },
            DevkitError::Harness(m) => {
                push_str(&mut out, "harness error: ");
                push_str(&mut out, m.as_str());
            },
            DevkitError::Analysis(m) => {
                push_str(&mut out, "analysis error: ");
                push_str(&mut out, m.as_str());
            },
            DevkitError::Io(e) => {
                push_str(&mut out, "io error: ");
                let detail = io_error_text(e);
                push_str(&mut out, detail.as_str());
            },
        }
        string_from_chars(&out)
    }
}

} // verus!
