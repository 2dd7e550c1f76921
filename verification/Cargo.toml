[package]
name = "chargebot"
version = "0.1.0"
edition = "2021"
publish = false

[dependencies]
regex = "1"
url = "2"
tokio = { version = "1", features = ["rt-multi-thread", "macros", "sync", "time", "signal", "net"] }
reqwest = { version = "0.12", default-features = false, features = ["json", "rustls-tls"] }
warp = { version = "0.3", default-features = false }
serde = { version = "1", features = ["derive"] }
serde_json = "1"
serde_yaml = "0.9"
serde_with = "3"
clap = "4"
prometheus-client = "0.22"
backoff = "0.4"
rand = "0.9"
log = "0.4"
env_logger = "0.11"
async-trait = "0.1"
