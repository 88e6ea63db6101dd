[package]
name = "owners_ledger"
version = "0.1.0"
edition = "2021"
publish = false

[dependencies]
anyhow = "=1.0.104"
base64 = "=0.22.1"
chrono = "=0.4.45"
jwt-simple = { version = "=0.12.17", default-features = false, features = ["pure-rust"] }
rusqlite = { version = "=0.41.1", features = ["bundled"] }
serde_json = "=1.0.154"
sha2 = "=0.10.9"
thiserror = "=2.0.21"
tokio = { version = "=1.54.1", features = ["sync"] }
totp-rs = { version = "=6.0.0", features = ["gen_secret", "otpauth", "qr"] }
uuid = { version = "=1.29.0", features = ["v4"] }
