[package]
name = "pingwatch"
version = "0.6.0"
edition = "2021"
publish = false

[dependencies]
anyhow = "1"
clap = { version = "4", features = ["derive"] }
fluent = "0.16"
http-body-util = "0.1"
hyper = { version = "1", features = ["http1", "http2", "server"] }
hyper-util = { version = "0.1", features = ["http1", "http2", "server-auto", "tokio"] }
lazy_static = "1"
pinger = "*"
prometheus = "0.13"
ratatui = "0.29"
tokio = { version = "1", features = ["full"] }
unic-langid = "0.9"
