[package]
name = "peps"
version = "0.8.1"
edition = "2021"
publish = false

[dependencies]
num-bigint = "0.4"
num-traits = "0.2"
unicode-segmentation = "1"
serde = { version = "1", features = ["derive"] }
serde_json = "1"
axum = "*"
tokio = { version = "1", features = ["macros", "rt-multi-thread", "net"] }
tower-http = { version = "*", features = ["fs", "cors"] }
open = "*"
anyhow = "1"
