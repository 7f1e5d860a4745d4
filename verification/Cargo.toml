[package]
name = "ai-protect"
version = "0.1.0"
edition = "2021"
publish = false

[dependencies]
anyhow = "1"
async-trait = "0.1"
metrics = "0.24"
metrics-exporter-prometheus = { version = "*", default-features = false, features = ["http-listener"] }
parking_lot = "0.12"
rand = "0.9"
rasn = "*"
rasn-ldap = "*"
redis = { version = "*", features = ["tokio-comp", "connection-manager", "tokio-rustls-comp"] }
rusqlite = { version = "*", features = ["bundled"] }
rustls = { version = "0.23", default-features = false, features = ["ring", "std", "tls12", "logging"] }
rustls-native-certs = "0.8"
rustls-pemfile = "2"
serde = { version = "1", features = ["derive"] }
thiserror = "2"
tokio = { version = "1", features = ["full"] }
tokio-rustls = { version = "0.26", default-features = false, features = ["ring", "tls12", "logging"] }
toml = "*"
tracing = "0.1"
tracing-appender = "0.2"
tracing-subscriber = { version = "0.3", features = ["env-filter", "json"] }
