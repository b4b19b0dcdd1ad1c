//! HTTP middleware logic.

pub mod rate_limit;
