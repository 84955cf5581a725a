[package]
name = "archodex_backend"
version = "0.1.0"
edition = "2021"
publish = false

[dependencies]
aes-gcm = "=0.10.3"
base64 = "=0.22.1"
rand = "=0.8.8"
chrono = { version = "=0.4.45", features = ["serde"] }
serde = { version = "=1.0.229", features = ["derive"] }
serde_json = "=1.0.154"
anyhow = "=1.0.104"
axum = "0.7"
tokio = { version = "1", features = ["rt-multi-thread", "macros", "signal", "sync", "time"] }
tracing = "0.1"
tracing-subscriber = "0.3"
uuid = "1"
async-trait = "0.1"
josekit = "*"
reqwest = { version = "*", default-features = false, features = ["rustls-tls"] }
aws-config = "=1.11.0"
aws-sdk-sts = "1"
aws-sdk-dynamodb = "1"
aws-sdk-cloudwatch = "1"
aws-sdk-organizations = "1"
aws-sdk-ssm = "1"
aws-sdk-kms = "1"
aws-smithy-types = "1"
