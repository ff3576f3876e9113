[package]
name = "rtp_opus"
version = "0.1.0"
edition = "2021"
publish = false

[dependencies]
anyhow = "1"
atty = "0.2"
clap = { version = "4", features = ["derive"] }
cpal = "0.15"
hound = "3"
hyper = { version = "0.14", features = ["server", "http1", "tcp"] }
opus = "0.3"
prometheus = "0.13"
rand = "0.8"
tokio = { version = "1", features = ["full"] }
tracing = "0.1"
tracing-subscriber = { version = "0.3", features = ["env-filter"] }
