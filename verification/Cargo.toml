[package]
name = "seeker"
version = "0.1.0"
edition = "2021"
publish = false

[dependencies]
ash = "0.38"
axum = "0.8"
base64 = "0.22"
futures-util = "0.3"
serde = { version = "1", features = ["derive"] }
serde_json = "1"
thiserror = "2"
tokenizers = { version = "0.22", default-features = false, features = ["fancy-regex"] }
tokio = { version = "1", features = ["net", "rt-multi-thread", "sync", "macros"] }
tower-http = { version = "0.6", features = ["cors", "trace"] }
tracing = "0.1"
