[package]
name = "logstats"
version = "0.1.0"
edition = "2021"
publish = false

[dependencies]
anyhow = "*"
chrono = "*"
console = "*"
regex = "*"
tokio = { version = "*", features = ["full"] }
