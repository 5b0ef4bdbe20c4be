[package]
name = "megrez"
version = "0.1.0"
edition = "2021"
publish = false

[dependencies]
anyhow = "*"
apache-avro = "*"
arrow = { version = "*", default-features = false }
clap = { version = "*", features = ["derive"] }
csv = "*"
parquet = { version = "*", default-features = false, features = ["arrow"] }
serde_json = "*"
