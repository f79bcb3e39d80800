[package]
name = "waf_core"
version = "0.1.0"
edition = "2021"
publish = false

[dependencies]
aho-corasick = "1"
anyhow = "1"
async-trait = "0.1"
base64 = "0.22"
bytes = "1"
dashmap = "6"
dns-lookup = "2"
hex = "0.4"
hmac = "0.12"
ipnet = "2"
openssl = "0.10"
parking_lot = "0.12"
percent-encoding = "2"
pingora-core = { version = "0.8", features = ["openssl"] }
pingora-http = "0.8"
pingora-proxy = { version = "0.8", features = ["openssl"] }
regex = "1"
rusqlite = { version = "0.32", features = ["bundled"] }
serde = { version = "1", features = ["derive"] }
serde_json = "1"
sha2 = "0.10"
thiserror = "1"
tokio = { version = "1", features = ["full"] }
tokio-openssl = "0.6"
toml = "0.8"
tracing = "0.1"
tracing-subscriber = { version = "0.3", features = ["env-filter", "json"] }
