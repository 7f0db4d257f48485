[package]
name = "tx_resolver"
version = "0.1.0"
edition = "2021"
publish = false

[dependencies]
anyhow = "1"
axum = "0.7"
itertools = "0.13"
openapiv3 = "2.0"
schemars = "0.8"
serde = { version = "1", features = ["derive"] }
sui-sdk-types = { version = "0.0.1", features = ["serde"] }
tap = "1"
