[package]
name = "omarchy-dock"
version = "0.1.0"
edition = "2021"
publish = false

[dependencies]
anyhow = "*"
dirs = "*"
serde = { version = "*", features = ["derive"] }
serde_json = "*"
toml = "*"
tokio = { version = "*", features = ["rt-multi-thread", "net", "io-util", "time", "macros", "sync"] }
tracing = "*"
tracing-subscriber = "*"
