[package]
name = "s3_sync_tool"
version = "0.1.0"
edition = "2021"
publish = false

[dependencies]
glob = "*"
mime_guess = "*"
chrono = "*"
anyhow = "*"
aws-config = "*"
aws-sdk-s3 = "*"
confy = "*"
serde = { version = "*", features = ["derive"] }
tokio = { version = "*", features = ["rt-multi-thread", "macros", "sync", "time"] }
tracing = "*"
tracing-appender = "*"
tracing-subscriber = "*"
walkdir = "*"
