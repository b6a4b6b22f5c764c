[package]
name = "chronosys"
version = "0.1.0"
edition = "2021"
publish = false

[dependencies]
anyhow = "=1.0.104"
aya = "=0.13.1"
bytemuck = { version = "=1.25.2", features = ["derive"] }
env_logger = "=0.11.11"
log = "=0.4.35"
nix = { version = "=0.31.3", features = ["poll"] }
tokio = { version = "=1.54.1", features = ["macros", "rt-multi-thread", "signal", "sync", "time"] }
tokio-util = "=0.7.20"
