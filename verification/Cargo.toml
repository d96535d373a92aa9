[package]
name = "pageserver_core"
version = "0.1.0"
edition = "2021"
publish = false

[dependencies]
anyhow = "1"
bytes = "1"
chrono = { version = "0.4", features = ["serde"] }
futures = "0.3"
http = "1"
humantime-serde = "1"
hyper = { version = "1", features = ["server", "http1", "http2"] }
hyper-util = { version = "0.1", features = ["tokio"] }
is_sorted = "0.1"
nix = { version = "0.27", features = ["dir", "fs"] }
pin-list = "0.1"
pin-project-lite = "0.2"
rand = "0.8"
serde = { version = "1", features = ["derive"] }
sync_wrapper = "0.1"
thiserror = "1"
tokio = { version = "1", features = ["time", "sync", "rt", "macros", "io-util"] }
tokio-util = "0.7"
tracing = "0.1"
