[package]
name = "mz_ingest"
version = "0.1.0"
edition = "2021"
publish = false

[dependencies]
anyhow = "=1.0.104"
arrow2 = { version = "=0.14.2", default-features = false, features = ["io_parquet"] }
async-stream = "=0.3.6"
async-trait = "=0.1.92"
bytes = "=1.12.1"
differential-dataflow = "=0.12.0"
futures = "=0.3.34"
prometheus = { version = "=0.13.4", default-features = false }
prost = "=0.11.9"
semver = "=1.0.28"
serde = { version = "=1.0.229", features = ["derive"] }
serde_json = "=1.0.154"
timely = { version = "=0.12.0", features = ["bincode"] }
tokio = { version = "=1.54.1", features = ["time", "rt", "macros"] }
uuid = { version = "=1.29.0", features = ["v4"] }
