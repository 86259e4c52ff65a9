[package]
name = "nimbusdns"
version = "0.1.0"
edition = "2021"
publish = false

[dependencies]
anyhow = "1"
argon2 = "=0.5.3"
axum = "=0.8.9"
chrono = "=0.4.45"
clap = { version = "4", features = ["derive"] }
dashmap = "=6.2.1"
dhcproto = "=0.15.0"
hickory-proto = "=0.26.3"
libc = "0.2"
nix = { version = "=0.29.0", features = ["net", "socket", "uio"] }
parking_lot = "0.12"
password-hash = "=0.5.0"
rand_core = { version = "=0.6.4", features = ["getrandom"] }
regex = "=1.13.1"
reqwest = { version = "0.12", default-features = false, features = ["rustls-tls"] }
rusqlite = { version = "0.32", features = ["bundled"] }
rustls = { version = "0.23", default-features = false, features = ["logging", "ring", "std", "tls12"] }
rustls-native-certs = "0.7"
serde = { version = "1", features = ["derive"] }
serde_json = "1"
sha2 = "=0.10.9"
socket2 = "0.5"
tokio = { version = "=1.54.1", features = ["full"] }
tokio-rustls = { version = "0.26", default-features = false, features = ["logging", "ring", "tls12"] }
toml = "0.8"
tower-http = { version = "0.6", features = ["cors"] }
tracing = "0.1"
tracing-subscriber = { version = "0.3", features = ["env-filter"] }
uuid = { version = "=1.29.0", features = ["v4"] }
