[package]
name = "signaller"
version = "0.1.0"
edition = "2021"
publish = false

[dependencies]
futures-channel = "0.3"
axum = { version = "0.7", features = ["ws"] }
tokio = { version = "1", features = ["rt-multi-thread", "macros", "net", "sync"] }
futures-util = "0.3"
log = "0.4"
env_logger = "0.11"
tower-http = { version = "0.5", features = ["trace"] }
serde_json = "1"
