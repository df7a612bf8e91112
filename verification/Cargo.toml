[package]
name = "kopia_fsrepo_recovery"
version = "0.1.0"
edition = "2021"
publish = false

[dependencies]
anyhow = "*"
clap = { version = "*", features = ["derive"] }
env_logger = "*"
indicatif = "*"
log = "*"
serde = { version = "*", features = ["derive"] }
serde_json = "*"
termimad = "*"
