[package]
name = "fconv"
version = "0.1.0"
edition = "2021"
publish = false

[dependencies]
arrow2 = { version = "*", features = ["io_parquet"] }
