[package]
name = "dvb-rs"
version = "0.1.0"
edition = "2021"
publish = false

[dependencies]
clap = { version = "4", features = ["derive"] }
encoding_rs = "0.8"
env_logger = "0.11"
libc = "0.2"
log = "0.4"
nix = { version = "0.29", features = ["ioctl"] }
serde = { version = "1", features = ["derive"] }
serde_json = "1"
thiserror = "1"
toml = "0.8"
