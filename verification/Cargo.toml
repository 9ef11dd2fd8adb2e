[package]
name = "aerosuite"
version = "0.1.0"
edition = "2021"
publish = false

[dependencies]
anyhow = "=1.0.104"
async-trait = "=0.1.92"
axum = { version = "=0.7.9", features = ["ws"] }
chrono = "=0.4.45"
clap = { version = "=4.6.7", features = ["derive", "env"] }
futures = "=0.3.34"
governor = "=0.10.4"
hex = "=0.4.3"
hmac = "=0.12.1"
libunftp = "=0.24.0"
opendal = { version = "=0.59.5", default-features = false, features = ["services-s3"] }
prometheus-parse = "=0.2.5"
rand = "=0.9.5"
redis = { version = "=1.8.1", features = ["tokio-comp", "connection-manager", "tokio-rustls-comp", "tls-rustls-insecure"] }
reqsign = { version = "*", default-features = false, features = ["aws", "default-context"] }
reqwest = { version = "=0.12.28", default-features = false, features = ["json", "rustls-tls"] }
serde = { version = "=1.0.229", features = ["derive"] }
serde_json = "=1.0.154"
serde_urlencoded = "=0.7.1"
sha2 = "=0.10.9"
socket2 = { version = "=0.6.5", features = ["all"] }
suppaftp = { version = "=12.2.1", features = ["tokio"] }
tokio = { version = "=1.54.1", features = ["full"] }
tokio-stream = "=0.1.19"
tokio-util = { version = "=0.7.20", features = ["io"] }
tracing = "=0.1.44"
tracing-subscriber = { version = "=0.3.23", features = ["env-filter"] }
unftp-auth-jsonfile = "=0.4.0"
unftp-core = "=0.1.0"
unftp-sbe-opendal = "=0.4.11"
