[package]
name = "notification_relay"
version = "0.1.0"
edition = "2021"
publish = false

[dependencies]
aws-config = "*"
aws-sdk-sesv2 = "*"
lambda_runtime = "*"
log = "*"
serde = { version = "*", features = ["derive"] }
structopt = "*"
tokio = { version = "*", features = ["macros", "rt-multi-thread"] }
