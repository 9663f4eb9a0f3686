[package]
name = "peeroxide"
version = "0.1.0"
edition = "2021"
publish = false

[dependencies]
hex = "0.4"
rand = "0.9"
clap = { version = "4", features = ["derive"] }
tokio = { version = "1", features = ["sync", "time", "rt", "macros", "signal"] }
thiserror = "2"
tracing = "0.1"
