[package]
name = "ledger_core"
version = "0.1.0"
edition = "2021"
publish = false

[dependencies]
bs58 = "=0.5.1"
chrono = { version = "=0.4.45", default-features = false, features = ["clock"] }
clap = "2"
ed25519-dalek = "=2.2.0"
hashbrown = "=0.17.1"
rand = "=0.8.8"
sha2 = "=0.10.9"

[dev-dependencies]
bincode = "=1.3.3"
