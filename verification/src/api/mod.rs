//! Request-independent logic of the HTTP API.

pub mod alerts;
pub mod fees;
pub mod headers;
