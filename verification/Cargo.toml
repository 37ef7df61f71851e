[package]
name = "http-replay-bench"
version = "0.1.0"
edition = "2021"
publish = false

[dependencies]
anyhow = "1"
async-trait = "0.1"
clap = { version = "4", features = ["derive"] }
flate2 = "1"
futures = "0.3"
http = "1"
indicatif = "*"
nix = { version = "*", features = ["user"] }
rand = { version = "0.10", features = ["chacha"] }
reqwest = "*"
reqwest-middleware = "*"
reqwest-retry = "*"
serde = { version = "1", features = ["derive"] }
serde_json = "1"
serde_with = "3"
sha2 = "*"
thiserror = "2"
tokio = { version = "1", features = ["rt", "time"] }
tracing = "0.1"
tracing-subscriber = "0.3"
