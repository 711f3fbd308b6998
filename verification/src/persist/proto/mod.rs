pub mod batch;
pub mod diff;
pub mod handle;
pub mod rollup;
