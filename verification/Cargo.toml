[package]
name = "normify"
version = "0.1.0"
edition = "2021"
publish = false

[dependencies]
indexmap = "2"
uuid = { version = "1", features = ["v4", "v7"] }
serde_json = { version = "1", features = ["preserve_order"] }
anyhow = "1"
polars = { version = "*", default-features = false }
