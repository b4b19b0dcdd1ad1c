//! Fee insights: rolling averages, extremes tracking, spike detection and input validation.

pub mod calculator;
pub mod detector;
pub mod engine;
pub mod horizon_adapter;
pub mod tracker;
pub mod types;
