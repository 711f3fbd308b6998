pub mod columnar;
pub mod encoding;
pub mod footer;
pub mod pages;
pub mod part_laws;
pub mod proto;
pub mod parquet;
