[package]
name = "billkeeper"
version = "0.1.0"
edition = "2021"
publish = false

[dependencies]
rand = "*"
regex = "*"
anyhow = "*"
async-stream = "*"
axum = { version = "*", features = ["multipart"] }
axum-extra = { version = "*", features = ["typed-header"] }
clap = { version = "*", features = ["derive"] }
futures = "*"
log = "*"
postcard = { version = "*", features = ["use-std"] }
pretty_env_logger = "*"
serde = { version = "*", features = ["derive"] }
serde_json = "*"
tempfile = "*"
thiserror = "*"
tokio = { version = "*", features = ["full"] }
