[package]
name = "vault_client"
version = "0.1.0"
edition = "2021"
publish = false

[dependencies]
bitcoin = "*"
clap = { version = "*", features = ["derive"] }
env_logger = "*"
futures = "*"
hex = "*"
log = "*"
parity-scale-codec = { version = "*", features = ["derive"] }
thiserror = "*"
tokio = { version = "*", features = ["rt-multi-thread", "macros", "sync", "time"] }
