[package]
name = "rushsocket"
version = "0.1.0"
edition = "2021"
publish = false

[dependencies]
hmac = "0.12"
sha2 = "0.10"
hex = "0.4"
subtle = "2"
md-5 = "0.10"
rand = "*"
governor = "*"
serde = { version = "1", features = ["derive"] }
serde_json = "1"
tokio = { version = "1", features = ["full"] }
axum = { version = "0.8", features = ["ws"] }
axum-server = { version = "0.7", features = ["tls-rustls"] }
tower = { version = "0.5", features = ["limit", "load-shed", "util"] }
tower-http = { version = "0.6", features = ["cors", "request-id"] }
clap = { version = "4", features = ["derive"] }
config = { version = "0.15", default-features = false, features = ["toml"] }
tracing = "0.1"
tracing-subscriber = { version = "0.3", features = ["env-filter"] }
reqwest = { version = "0.12", default-features = false, features = ["rustls-tls"] }
bytes = "1"
futures-util = { version = "0.3", features = ["sink"] }
parking_lot = "0.12"
dashmap = "6"
uuid = { version = "1", features = ["v4"] }
deadpool-redis = "0.18"
sd-notify = "0.4"
anyhow = "1"
async-trait = "0.1"
tikv-jemallocator = "0.6"
