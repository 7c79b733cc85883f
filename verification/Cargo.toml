[package]
name = "iceberg_deletes"
version = "0.1.0"
edition = "2021"
publish = false

[dependencies]
arrow-array = "*"
arrow-cast = "*"
arrow-schema = "*"
async-trait = "*"
futures = "*"
parquet = { version = "*", default-features = false, features = ["arrow", "async"] }
roaring = "*"
