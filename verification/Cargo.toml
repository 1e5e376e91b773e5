[package]
name = "hybrid_mount"
version = "0.1.0"
edition = "2021"
publish = false

[dependencies]
anyhow = "1"
serde = { version = "1", features = ["derive"] }
serde_json = "1"
toml = "*"
fastrand = "2"
rustix = { version = "1", features = ["fs", "mount", "process"] }
libc = "0.2"
walkdir = "2"
tempfile = "3"
log = "0.4"
env_logger = "*"
glob = "0.3"
clap = { version = "4", features = ["derive"] }
procfs = { version = "*", default-features = false }
signal-hook = "*"
extattr = "*"
