[package]
name = "dumpy"
version = "0.1.0"
edition = "2021"
publish = false

[dependencies]
anyhow = "*"
axum = "0.6"
base64 = "*"
bcrypt = "*"
clap = { version = "*", features = ["derive"] }
pcap = "*"
serde = { version = "*", features = ["derive"] }
serde_json = "*"
serde_yaml = "*"
time = { version = "*", features = ["parsing", "formatting", "macros", "local-offset"] }
tokio = { version = "*", features = ["full"] }
tokio-stream = "*"
tracing = "*"
tracing-subscriber = { version = "*", features = ["json"] }
