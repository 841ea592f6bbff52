[package]
name = "arbor"
version = "0.1.0"
edition = "2021"
publish = false

[dependencies]
arrow = { version = "51", features = ["prettyprint"] }
chrono = "=0.4.38"
parquet = "51"
sqlparser = "0.43"
thiserror = "1"

[dev-dependencies]
tempfile = "3"
