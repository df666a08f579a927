[package]
name = "bruce-core"
version = "0.1.0"
edition = "2021"
publish = false

[dependencies]
ahash = "0.8"
anyhow = "1"
arrow = { version = "*", default-features = false }
ndarray = "0.16"
parquet = { version = "*", default-features = false, features = ["arrow"] }
rayon = "1"
serde = { version = "1", features = ["derive"] }
serde_json = "1"
