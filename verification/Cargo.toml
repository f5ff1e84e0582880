[package]
name = "qshare"
version = "0.1.0"
edition = "2021"
publish = false

[dependencies]
mime_guess = "=2.0.5"
percent-encoding = "=2.3.2"
sha2 = "=0.10.9"
uuid = { version = "=1.29.0", features = ["v4"] }
md-5 = "=0.10.6"
axum = { version = "=0.8.9", features = ["ws"] }
tokio = { version = "=1.54.1", features = ["full"] }
serde = { version = "=1.0.229", features = ["derive"] }
serde_json = "=1.0.154"
tracing = "=0.1.44"
tracing-subscriber = { version = "=0.3.23", features = ["env-filter"] }
clap = { version = "=4.6.7", features = ["derive"] }
anyhow = "=1.0.104"
bytes = "=1.12.1"
futures = "=0.3.34"
async-stream = "=0.3.6"
tokio-stream = "=0.1.19"
parking_lot = "=0.12.5"
dashmap = "=6.2.1"
notify = "=8.2.1"
notify-debouncer-full = "=0.5.0"
ignore = "=0.4.34"
image = { version = "=0.25.10", default-features = false, features = ["jpeg", "png", "gif"] }
mdns-sd = "=0.21.7"
qrcode = { version = "=0.14.1", default-features = false }
rust-embed = "=8.13.0"
ratatui = "=0.30.2"
crossterm = "=0.29.0"
regex = "=1.13.1"
