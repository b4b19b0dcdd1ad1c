pub mod horizon;
