[package]
name = "sns_gateway"
version = "0.1.0"
edition = "2021"
publish = false

[dependencies]
axum = "=0.8.9"
tokio = { version = "=1.53.2", features = ["macros", "rt-multi-thread", "net"] }
serde = { version = "=1.0.229", features = ["derive"] }
aws-config = { version = "=1.12.0", features = ["behavior-version-latest"] }
aws-sdk-sns = "=1.116.0"
aws-credential-types = { version = "=1.3.0", features = ["hardcoded-credentials"] }
