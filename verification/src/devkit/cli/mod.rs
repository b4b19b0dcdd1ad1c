pub mod export;
