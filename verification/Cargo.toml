[package]
name = "ddnet_rs"
version = "0.1.0"
edition = "2021"
publish = false

[dependencies]
anyhow = "1"
axum = { version = "0.8", default-features = false, features = ["http1", "json", "tokio"] }
axum-server = { version = "0.7", default-features = false, features = ["tls-rustls-no-provider"] }
bincode = { version = "=2.0.1", features = ["serde"] }
chrono = { version = "0.4", features = ["serde"] }
clap = { version = "4", features = ["derive"] }
crc32fast = "=1.5.4"
ed25519-dalek = { version = "=2.2.0", features = ["pkcs8", "pem", "rand_core"] }
hashlink = "=0.11.1"
hex = "=0.4.3"
hyper-util = { version = "0.1", features = ["tokio"] }
log = "0.4"
quinn = { version = "0.11", default-features = false, features = ["runtime-tokio", "rustls-ring"] }
rand = "=0.8.8"
rcgen = "=0.14.10"
reqwest = { version = "0.12", default-features = false, features = ["rustls-tls-webpki-roots-no-provider"] }
rustc-hash = "=2.1.3"
rustls = { version = "0.23", default-features = false, features = ["ring", "std"] }
self-replace = "1"
serde = { version = "=1.0.229", features = ["derive"] }
serde_json = "=1.0.154"
spki = { version = "=0.7.3", features = ["alloc", "fingerprint"] }
tempfile = "3"
tokio = { version = "1", features = ["fs", "io-util", "macros", "net", "rt-multi-thread", "signal", "sync", "time"] }
url = "=2.5.8"
x509-cert = { version = "=0.2.5", features = ["pem"] }
zip = { version = "2", default-features = false, features = ["deflate"] }
zstd = "=0.13.4"
