[package]
name = "takopack"
version = "0.1.0"
edition = "2021"
publish = false

[dependencies]
anyhow = "1"
clap = { version = "4", features = ["derive"] }
env_logger = "0.11"
flate2 = "1"
log = "0.4"
nu-ansi-term = "0.50"
semver = "1"
serde = { version = "1", features = ["derive"] }
serde_json = "1"
serde_path_to_error = "0.1"
sha2 = "0.10"
tar = "0.4"
tempfile = "3"
toml = "0.8"
ureq = "2"
