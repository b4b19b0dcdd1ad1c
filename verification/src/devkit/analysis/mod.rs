pub mod percentile;
