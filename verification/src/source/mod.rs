pub mod laws;
pub mod metrics;
pub mod types;
