[package]
name = "senders"
version = "0.1.0"
edition = "2021"
publish = false

[dependencies]
base64 = "=0.22.1"
sha2 = "=0.10.9"
hmac = "=0.12.1"
hkdf = "=0.12.4"
pbkdf2 = "=0.12.2"
aes-gcm = "=0.10.3"
rand = "=0.9.5"
subtle = "=2.6.1"
chrono = { version = "=0.4.45", default-features = false, features = ["alloc"] }
serde = { version = "=1.0.229", features = ["derive"] }
serde_json = "=1.0.154"
anyhow = "=1.0.104"
thiserror = "=2.0.21"
async-trait = "=0.1.92"
axum = "=0.8.9"
tokio = { version = "=1.54.1", features = ["macros", "rt-multi-thread", "fs", "io-util", "net", "signal", "sync", "time"] }
tokio-util = { version = "=0.7.20", features = ["io"] }
futures-util = "=0.3.34"
bytes = "=1.12.1"
clap = { version = "=4.6.7", features = ["derive", "env"] }
tower = { version = "=0.5.3", features = ["util"] }
tower-http = { version = "=0.6.11", features = ["fs", "set-header", "trace"] }
tracing = "=0.1.44"
tracing-subscriber = { version = "=0.3.23", features = ["env-filter"] }
reqwest = { version = "=0.12.28", default-features = false, features = ["stream", "json", "rustls-tls"] }
url = "=2.5.8"
indicatif = "=0.17.11"
openidconnect = "=4.1.0"
fred = { version = "=10.1.0", features = ["i-scripts"] }
