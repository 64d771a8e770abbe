[package]
name = "tapctl"
version = "0.1.0"
edition = "2021"
publish = false

[dependencies]
anyhow = "1"
clap = { version = "4", features = ["derive"] }
env_logger = "*"
log = "*"
rand = "=0.10.3"
tokio = { version = "1", features = ["macros", "rt-multi-thread", "signal"] }
tun-rs = { version = "=2.8.11", features = ["async"] }
