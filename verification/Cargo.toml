[package]
name = "anecho"
version = "0.1.0"
edition = "2021"
publish = false

[dependencies]
bytes = "1"
tokio = { version = "1", features = ["sync", "rt", "rt-multi-thread", "macros", "time"] }
async-trait = "0.1"
log = "0.4"
thiserror = "2"
serde = { version = "1", features = ["derive"] }
num-complex = "0.4"
realfft = "3"
anyhow = "1"
clap = { version = "4", features = ["derive"] }
env_logger = "0.11"
