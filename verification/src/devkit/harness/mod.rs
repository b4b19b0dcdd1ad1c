pub mod horizon_mock;
pub mod scenarios;
