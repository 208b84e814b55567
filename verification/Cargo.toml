[package]
name = "sherlock"
version = "0.1.0"
edition = "2021"
publish = false

[dependencies]
bech32 = "0.11"
bs58 = { version = "0.5", features = ["check"] }
hex = "0.4"
sha2 = "0.10"
serde = { version = "1", features = ["derive"] }
serde_json = "1"
axum = "0.8"
tokio = { version = "1", features = ["rt-multi-thread", "net"] }
tower-http = { version = "0.6", features = ["cors"] }
