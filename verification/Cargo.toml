[package]
name = "kafka_json_processor"
version = "0.1.0"
edition = "2021"
publish = false

[dependencies]
serde_json = "*"
regex = "*"
rdkafka = "*"
tokio = { version = "*", features = ["rt-multi-thread", "time", "macros"] }
crossbeam-channel = "*"
log = "*"
env_logger = "*"
serde = { version = "*", features = ["derive"] }
serde_yaml = "*"
clap = { version = "*", features = ["derive"] }
