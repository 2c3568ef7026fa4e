[package]
name = "dataset_catalog"
version = "0.1.0"
edition = "2021"
publish = false

[dependencies]
im = "15"
anyhow = "1"
thiserror = "1"
arrow = { version = "*", default-features = false, features = ["csv"] }
parquet = { version = "*", default-features = false, features = ["arrow"] }
