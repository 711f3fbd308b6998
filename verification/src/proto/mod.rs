pub mod laws;
pub mod message;
pub mod values;
pub mod wire;
