[package]
name = "galvanizer"
version = "0.1.0"
edition = "2021"
publish = false

[dependencies]
base64 = "0.22"
bytesize = "*"
chrono = "0.4"
clap = { version = "4", features = ["derive", "env"] }
crossbeam = "0.8"
dashmap = "*"
dialoguer = "*"
either = "1"
env_logger = "*"
globset = "0.4"
log = "0.4"
rayon = "1"
serde = { version = "1", features = ["derive"] }
sha2 = "0.10"
snap = "1"
toml = "0.5"
walkdir = "2"
