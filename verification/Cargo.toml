[package]
name = "arkhe"
version = "0.1.0"
edition = "2021"
publish = false

[dependencies]
ed25519-dalek = { version = "2", features = ["rand_core"] }
rand_core = { version = "0.6", features = ["getrandom"] }
uuid = { version = "1", features = ["v4"] }
chrono = "0.4"
serde = { version = "1", features = ["derive"] }
serde_json = "1"
bincode = "1"
libm = "0.2"
thiserror = "1"
hex = "0.4"
clap = { version = "4", features = ["derive"] }
