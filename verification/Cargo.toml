[package]
name = "asr-rs"
version = "0.1.0"
edition = "2021"
publish = false

[dependencies]
anyhow = "1"
audioadapter-buffers = "2.0"
cpal = "0.17"
directories = "6"
futures-util = "0.3"
regex = "1"
ringbuf = "0.4"
rubato = "1.0"
serde = { version = "1", features = ["derive"] }
serde_json = "1"
tokio = { version = "1", features = ["rt-multi-thread", "macros", "net", "signal", "sync", "time"] }
tokio-tungstenite = "0.26"
toml = "0.8"
tracing = "0.1"
tracing-subscriber = { version = "0.3", features = ["env-filter"] }
