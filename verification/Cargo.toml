[package]
name = "gofer"
version = "0.1.0"
edition = "2021"
publish = false

[dependencies]
async-trait = "=0.1.92"
base64 = "=0.13.1"
bollard = "=0.13.0"
chrono = "=0.4.45"
chrono-humanize = "=0.2.3"
clap = { version = "=3.2.25", features = ["derive"] }
comfy-table = "=6.2.0"
futures = "=0.3.34"
prost = "=0.10.4"
serde = { version = "=1.0.229", features = ["derive"] }
serde_json = "=1.0.154"
slog = "=2.8.2"
slog-scope = "=4.4.1"
sloggers = "=2.2.0"
sqlx = { version = "=0.5.13", default-features = false, features = ["sqlite", "runtime-tokio-rustls"] }
thiserror = "=1.0.69"
tokio = { version = "=1.54.1", features = ["full"] }
tonic = { version = "=0.7.2", features = ["tls"] }
url = "=2.5.8"
