[package]
name = "udp_probe"
version = "0.1.0"
edition = "2021"
publish = false

[dependencies]
anyhow = "*"
argh = "*"
async-stream = "*"
futures-util = "*"
superconsole = "*"
tokio = { version = "*", features = ["net", "time", "rt-multi-thread", "macros"] }
tokio-stream = "*"
