[package]
name = "iota-wallet"
version = "0.1.0"
edition = "2021"
publish = false

[dependencies]
bee-common = "=0.5.0"
bee-message = "=0.1.7"
chrono = "=0.4.45"
futures = "=0.3.34"
iota-client = "=1.4.0"
iota-crypto = { version = "=0.5.1", features = ["random", "pbkdf", "hmac", "sha", "bip39", "bip39-en"] }
log = "=0.4.34"
serde = { version = "=1.0.229", features = ["derive"] }
slip10 = "=0.4.3"
tokio = { version = "=1.54.1", features = ["sync", "rt", "time", "macros"] }
zeroize = "=1.9.1"
