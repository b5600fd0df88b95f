[package]
name = "miner_factory"
version = "0.1.0"
edition = "2021"
publish = false

[dependencies]
anyhow = "1"
async-stream = "0.3"
futures = "0.3"
ipnet = "2"
rand = "0.9"
rlimit = "0.10"
tokio = { version = "1", features = ["net", "time", "macros", "rt"] }
tracing = "0.1"
