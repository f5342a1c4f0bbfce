[package]
name = "nfs4"
version = "0.1.0"
edition = "2021"
publish = false

[dependencies]
anyhow = "*"
default-net = "*"
env_logger = "*"
log = "*"
nix = { version = "*", features = ["user"] }
rand = "*"
sudo = "*"
tokio = { version = "*", features = ["full"] }
