[package]
name = "network-usage-monitoring"
version = "0.1.0"
edition = "2021"
publish = false

[dependencies]
anyhow = "1"
aya = "0.13"
aya-ebpf = "0.1"
aya-log = "0.2"
clap = { version = "4", features = ["derive"] }
crossterm = "0.28"
env_logger = "0.11"
log = "0.4"
network-types = "0.0.8"
ratatui = "0.29"
tokio = { version = "1", features = ["macros", "rt", "rt-multi-thread", "time"] }
