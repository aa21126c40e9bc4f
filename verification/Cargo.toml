[package]
name = "figma_agent"
version = "0.1.0"
edition = "2021"
publish = false

[dependencies]
anyhow = "=1.0.104"
axum = "=0.8.9"
axum-server = { version = "=0.7.3", features = ["tls-rustls"] }
clap = { version = "=4.6.7", features = ["derive"] }
core-foundation = "=0.10.1"
core-text = "=22.0.0"
hex = "=0.4.3"
rcgen = "=0.13.2"
serde = { version = "=1.0.229", features = ["derive"] }
serde_json = "=1.0.154"
sha2 = "=0.10.9"
tokio = { version = "=1.54.1", features = ["full"] }
tower = "=0.5.3"
tower-http = { version = "=0.6.11", features = ["normalize-path", "compression-gzip", "compression-deflate", "compression-zstd"] }
tracing = "=0.1.44"
tracing-subscriber = { version = "=0.3.23", features = ["env-filter"] }
ttf-parser = "=0.25.1"
walkdir = "=2.5.0"
