[package]
name = "tachyon_proxy"
version = "0.1.0"
edition = "2021"
publish = false

[dependencies]
anyhow = "*"
clap = { version = "*", features = ["derive"] }
serde = { version = "*", features = ["derive"] }
tokio = { version = "*", features = ["full"] }
toml = "*"
tracing = "*"
tracing-subscriber = { version = "*", features = ["env-filter"] }
