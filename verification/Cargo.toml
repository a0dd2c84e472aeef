[package]
name = "kokoro"
version = "0.1.0"
edition = "2021"
publish = false

[dependencies]
fancy-regex = "*"
clap = { version = "4", features = ["derive"] }
crossbeam-channel = "0.5"
ctrlc = "3"
dirs = "5"
env_logger = "0.11"
hound = "3"
log = "0.4"
ndarray = "0.16"
ort = "2.0.0-rc.10"
rodio = { version = "0.20", default-features = false }
serde = { version = "1", features = ["derive"] }
serde_json = "1"
thiserror = "1"
ureq = "2"
