[package]
name = "runic"
version = "0.1.0"
edition = "2021"
publish = false

[dependencies]
regex = "1"
serde_json = "1"
reqwest = { version = "0.12", default-features = false, features = ["json", "stream"] }
serde = { version = "1", features = ["derive"] }
tokio = { version = "1", features = ["full"] }
tokio-stream = "0.1"
futures = "0.3"
async-trait = "0.1"
eventsource-stream = "0.2"
chrono = "0.4"
libc = "0.2"
thiserror = "1"
anyhow = "1"
tracing = "0.1"
zeroize = "1"
