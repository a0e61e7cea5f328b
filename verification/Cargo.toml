[package]
name = "imap_filter"
version = "0.1.0"
edition = "2021"
publish = false

[dependencies]
base64 = "*"
chrono = "*"
clap = { version = "*", features = ["derive"] }
env_logger = "*"
eyre = "*"
globset = "*"
imap = "*"
log = "*"
mailparse = "*"
native-tls = "*"
secure-string = "*"
serde = { version = "*", features = ["derive"] }
serde_yaml = "*"
ureq = "*"
