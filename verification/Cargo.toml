[package]
name = "floresta_peers"
version = "0.1.0"
edition = "2021"
publish = false

[dependencies]
bitcoin = "0.32"
dns-lookup = "2"
rand = "0.10"
rustls = { version = "0.23", default-features = false, features = ["ring", "std"] }
serde = { version = "1", features = ["derive"] }
serde_json = "1"
tokio = { version = "1", features = ["sync"] }
tracing = "0.1"
ureq = { version = "3", default-features = false, features = ["rustls", "socks-proxy", "json"] }
