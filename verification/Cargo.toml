[package]
name = "doh_proxy"
version = "0.1.0"
edition = "2021"
publish = false

[dependencies]
anyhow = "1"
clap = { version = "4", features = ["derive"] }
log = "0.4"
reqwest = { version = "0.11", default-features = false, features = ["rustls-tls", "socks"] }
simplelog = "0.12"
tokio = { version = "1", features = ["rt-multi-thread", "macros"] }
