[package]
name = "events_api"
version = "0.1.0"
edition = "2021"
publish = false

[dependencies]
image = { version = "*", default-features = false, features = ["png", "jpeg", "avif"] }
aws-config = "*"
aws-sdk-dynamodb = "*"
aws-sdk-s3 = "*"
axum = { version = "*", features = ["multipart"] }
bytes = "*"
serde = { version = "*", features = ["derive"] }
serde_json = "*"
tokio = { version = "*", features = ["rt-multi-thread", "macros"] }
uuid = { version = "*", features = ["v4"] }
