[package]
name = "rubin"
version = "0.1.0"
edition = "2021"
publish = false

[dependencies]
clap = { version = "*", features = ["derive"] }
tokio = { version = "*", features = ["full"] }
tracing = "*"
tracing-subscriber = "*"

[dev-dependencies]
serde_json = "*"
