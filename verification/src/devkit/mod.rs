//! Developer toolkit: analysis, export, scenario harness and simulation helpers.

pub mod analysis;
pub mod cli;
pub mod error;
pub mod harness;
pub mod simulation;
pub mod test_helpers;
pub mod types;
