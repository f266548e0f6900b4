[package]
name = "egg"
version = "0.1.0"
edition = "2021"
publish = false

[dependencies]
axum = "*"
axum-streams = { version = "*", features = ["json"] }
clap = { version = "4", features = ["derive"] }
futures = "0.3"
reqwest = { version = "*", default-features = false, features = ["json", "stream"] }
serde = { version = "1", features = ["derive"] }
serde_json = "1"
serde_yaml = "0.9"
tokio = { version = "1", features = ["full"] }
uuid = { version = "1", features = ["v4", "serde"] }
