[package]
name = "voice_actions"
version = "0.1.0"
edition = "2021"
publish = false

[dependencies]
anyhow = "=1.0.104"
clap = { version = "=4.6.7", features = ["derive"] }
tracing = "=0.1.44"
tracing-subscriber = "=0.3.23"
wasmedge-sdk = "=0.14.0"
ffmpeg-next = "=7.1.0"
qwen3-asr = { version = "=0.2.2", default-features = false }
serde = { version = "=1.0.229", features = ["derive"] }
reqwest = { version = "=0.11.27", default-features = false, features = ["json"] }
tokio = { version = "=1.54.1", features = ["rt"] }
