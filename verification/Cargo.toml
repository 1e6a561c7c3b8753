[package]
name = "keke"
version = "0.1.0"
edition = "2021"
publish = false

[dependencies]
anyhow = "1"
base64 = "0.22"
chrono = "0.4"
crossterm = { version = "0.28", features = ["event-stream"] }
eventsource-stream = "0.2"
futures = "0.3"
ignore = "0.4"
pulldown-cmark = { version = "0.13", default-features = false }
rand = "0.9"
ratatui = "0.29"
reqwest = { version = "0.12", default-features = false, features = ["json", "stream", "rustls-tls"] }
schemars = "1"
serde = { version = "1", features = ["derive"] }
serde_json = "1"
sha2 = "0.10"
similar = "2"
thiserror = "2"
tokio = { version = "1", features = ["full"] }
tracing = "0.1"
unicode-width = "0.2"
url = "2"
