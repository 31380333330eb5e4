[package]
name = "combat_session"
version = "0.1.0"
edition = "2021"
publish = false

[dependencies]
anyhow = "*"
bincode = "*"
colosseum = "*"
crossbeam = "*"
env_logger = "*"
laminar = "*"
log = "*"
tokio = { version = "*", features = ["rt", "macros"] }
