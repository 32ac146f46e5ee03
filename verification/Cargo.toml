[package]
name = "discord_stats"
version = "0.1.0"
edition = "2021"
publish = false

[dependencies]
chrono = "0.4"
chrono-tz = "=0.8.6"
cron = "=0.12.1"
sysinfo = "=0.29.11"
tokio = { version = "1", features = ["full"] }
serenity = "=0.11.7"
mongodb = "=2.8.2"
bson = "=2.15.0"
serde = { version = "1", features = ["derive"] }
serde_yaml = "0.9"
aws-config = { version = "*", default-features = false }
aws-sdk-comprehend = { version = "*", default-features = false }
aws-sdk-translate = { version = "*", default-features = false }
