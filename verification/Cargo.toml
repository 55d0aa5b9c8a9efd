[package]
name = "hex_harness"
version = "0.1.0"
edition = "2021"
publish = false

[dependencies]
anyhow = "=1.0.104"
chrono = "=0.4.45"
clap = { version = "=4.6.7", features = ["derive"] }
clap_complete = "=4.6.11"
cron = "=0.12.1"
dirs = "=5.0.1"
fastembed = { version = "=4.9.1", default-features = false, features = ["hf-hub-rustls-tls", "ort-load-dynamic"] }
fs2 = "=0.4.3"
libc = "=0.2.191"
notify = "=6.1.1"
rusqlite = { version = "=0.31.0", features = ["bundled"] }
serde = { version = "=1.0.229", features = ["derive"] }
serde_json = "=1.0.154"
sha2 = "=0.10.9"
signal-hook = "=0.3.18"
sqlite-vec = "0.1"
toml = "=0.8.23"
ulid = "=1.2.1"
ureq = { version = "=2.12.1", features = ["json"] }
uuid = { version = "=1.29.0", features = ["v4"] }
walkdir = "=2.5.0"
