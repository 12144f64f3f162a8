[package]
name = "axum-cargo-registry"
version = "0.1.0"
edition = "2021"
publish = false

[dependencies]
sha2 = "*"
time = { version = "*", features = ["formatting", "parsing"] }
serde = { version = "*", features = ["derive"] }
serde_json = "*"
axum = "*"
tokio = { version = "*", features = ["rt-multi-thread", "macros", "net"] }
aws-config = "*"
aws-sdk-s3 = "*"
