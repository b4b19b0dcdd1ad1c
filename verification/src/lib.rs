//! Verified core of the Stellar fee tracker and its developer kit.

pub mod alerts;
pub mod api;
pub mod clock;
pub mod devkit;
pub mod insights;
pub mod middleware;
pub mod netaddr;
pub mod repository;
pub mod services;
pub mod sorting;
pub mod text;
