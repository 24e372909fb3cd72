[package]
name = "titun"
version = "0.1.0"
edition = "2021"
publish = false

[dependencies]
blake2-rfc = "=0.2.18"
byteorder = "=1.5.0"
clap = "=2.34.0"
data-encoding = "=2.11.1"
env_logger = "=0.11.11"
log = "=0.4.34"
nix = { version = "=0.31.3", features = ["fs", "ioctl"] }
noise-protocol = "=0.1.4"
noise-rust-crypto = "0.5"
noise-sodiumoxide = "=0.1.1"
rustc-serialize = "=0.3.25"
serde = { version = "=1.0.229", features = ["derive"] }
serde_yaml = "=0.9.34"
sodiumoxide = "=0.2.7"
tai64 = "=4.1.0"
