pub mod fee_model;
