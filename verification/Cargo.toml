[package]
name = "basalt"
version = "0.1.1"
edition = "2021"
publish = false

[dependencies]
flate2 = "=1.1.10"
url = "=2.5.8"
base64 = "=0.22.1"
time = { version = "=0.3.55", features = ["parsing"] }
serde = { version = "=1.0.229", features = ["derive"] }
serde_json = "=1.0.154"
parking_lot = "=0.12.5"
once_cell = "=1.21.4"
arc-swap = "=1.9.3"
tokio = { version = "=1.54.1", features = ["rt-multi-thread", "sync", "time", "macros", "net"] }
anyhow = "=1.0.104"
thiserror = "=2.0.21"
tracing = "=0.1.44"
getrandom = "=0.3.4"
dirs = "=6.0.0"
toml = "=0.8.23"
futures-util = { version = "0.3", features = ["sink"] }
bytes = "1"
reqwest = { version = "0.12", default-features = false, features = ["json", "multipart", "gzip", "rustls-tls"] }
tokio-tungstenite = { version = "0.24", features = ["rustls-tls-webpki-roots"] }
tracing-subscriber = { version = "0.3", features = ["env-filter", "fmt"] }
