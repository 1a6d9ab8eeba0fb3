[package]
name = "blobby"
version = "0.1.0"
edition = "2021"
publish = false

[dependencies]
uuid = { version = "*", features = ["v4"] }
chrono = "*"
serde = { version = "*", features = ["derive"] }
tokio = { version = "*", features = ["full"] }
axum = "*"
async-trait = "*"
rmp-serde = "*"

[dev-dependencies]
serde_json = "*"
