[package]
name = "peers"
version = "0.1.0"
edition = "2021"
publish = false

[dependencies]
bincode = "1.3"
chrono = "0.4"
parking_lot = "0.11"
rand = "0.8"
snow = { version = "0.8", features = ["libsodium-resolver"] }
tokio = { version = "1", features = ["io-util", "macros", "net", "rt", "rt-multi-thread", "sync", "time"] }
