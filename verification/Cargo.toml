[package]
name = "opensovd"
version = "0.1.0"
edition = "2021"
publish = false

[dependencies]
rand = "=0.10.3"
rustix = { version = "=1.1.6", features = ["system"] }
time = { version = "=0.3.55", features = ["macros", "formatting"] }
if-addrs = "=0.15.0"
mdns-sd = "=0.21.7"
chrono = "=0.4.45"
serde = { version = "=1.0.229", features = ["derive"] }
serde_json = "=1.0.154"
serde_path_to_error = "=0.1.20"
uuid = { version = "=1.29.0", features = ["v4"] }
tokio = { version = "=1.54.1", features = ["rt", "rt-multi-thread", "time", "sync", "macros", "net"] }
reqwest = { version = "=0.13.5", default-features = false, features = ["json"] }
http = "=1.5.0"
tracing = "=0.1.44"
thiserror = "=2.0.21"
warp = "=0.3.7"
async-trait = "=0.1.92"
futures = "=0.3.34"
rustls = "=0.23.46"
tokio-rustls = "=0.26.6"
axum = { version = "=0.8.9", features = ["multipart"] }
bytes = "=1.12.1"
