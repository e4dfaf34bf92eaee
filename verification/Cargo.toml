[package]
name = "dabus"
version = "0.1.0"
edition = "2021"
publish = false

[dependencies]
anyhow = "1"
async-trait = "0.1"
flume = "0.10"
futures = "0.3"
log = "0.4"
pretty_env_logger = "0.4"
thiserror = "1"
tokio = { version = "1", features = ["rt", "rt-multi-thread"] }
