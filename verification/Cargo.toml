[package]
name = "axum_typed_multipart"
version = "0.1.0"
edition = "2021"
publish = false

[dependencies]
anyhow = "1"
async-trait = "0.1"
axum = { version = "0.8", features = ["multipart"] }
bytes = "1"
chrono = "0.4"
futures-core = "0.3"
futures-util = "0.3"
rust_decimal = "1"
serde_spanned = "0.6"
tempfile = "3"
thiserror = "2"
tokio = { version = "1", features = ["fs", "io-util"] }
uuid = "1"
