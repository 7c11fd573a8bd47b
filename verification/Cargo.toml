[package]
name = "syncnm"
version = "0.1.0"
edition = "2021"
publish = false

[dependencies]
sha2 = "*"
data-encoding = "*"
clap = "*"
dirs = "*"
env_logger = "*"
glob = "*"
log = "*"
path-clean = "*"
serde = { version = "*", features = ["derive"] }
serde_json = "*"
serde_yaml = "*"
anyhow = "*"
