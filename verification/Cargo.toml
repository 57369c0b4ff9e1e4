[package]
name = "teralaunch"
version = "0.1.0"
edition = "2021"
publish = false

[dependencies]
sha2 = "=0.10.9"
regex-syntax = "=0.8.11"
serde = { version = "=1.0.229", features = ["derive"] }
serde_json = "=1.0.154"
url = "=2.5.8"
rust-ini = "=0.19.0"
walkdir = "=2.5.0"
chrono = "=0.4.45"
reqwest = { version = "=0.11.27", default-features = false, features = ["json", "cookies", "stream"] }
tokio = { version = "=1.54.1", features = ["rt-multi-thread", "sync", "fs", "macros"] }
futures-util = "=0.3.34"
indicatif = "=0.17.11"
rayon = "=1.12.0"
dotenv = "=0.15.0"
log = "=0.4.35"
lazy_static = "=1.5.1"
zip = { version = "=0.6.6", default-features = false, features = ["deflate"] }
winapi = { version = "=0.3.9", features = ["winuser", "minwindef", "windef"] }

[dev-dependencies]
regex = "=1.13.1"
