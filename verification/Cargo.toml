[package]
name = "s3pulse"
version = "0.2.1"
edition = "2021"
publish = false

[dependencies]
async-trait = "0.1"
aws-config = { version = "1", default-features = false, features = ["rt-tokio", "default-https-client", "sso"] }
aws-sdk-s3 = { version = "1", default-features = false, features = ["rt-tokio", "default-https-client", "sigv4a"] }
chrono = { version = "0.4", features = ["serde"] }
chrono-tz = "*"
clap = { version = "4", features = ["derive", "env"] }
serde = { version = "1", features = ["derive"] }
serde_json = "1"
thiserror = "*"
tokio = { version = "1", features = ["full"] }
tokio-util = "*"
tracing = "0.1"
tracing-subscriber = { version = "0.3", features = ["env-filter"] }
uuid = { version = "1", features = ["v4"] }
