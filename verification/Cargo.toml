[package]
name = "snowpack"
version = "0.1.0"
edition = "2021"
publish = false

[dependencies]
ed25519-dalek = { version = "2", features = ["rand_core"] }
hex = "0.4"
metrics = "0.24"
postcard = { version = "1", features = ["use-std"] }
rand_core = { version = "0.6", features = ["getrandom"] }
secrecy = "0.8"
serde = { version = "1", features = ["derive"] }
snow = "0.9"
thiserror = "1"
tokio = { version = "1", features = ["io-util", "net", "rt", "rt-multi-thread", "sync", "time"] }
tracing = "0.1"
yatlv = "*"

[dev-dependencies]
serde_json = "1"
