pub mod debezium;
pub mod indexed;
pub mod persist;
pub mod proto;
pub mod source;
mod base64;
mod bytes;
mod hash;
mod text;
