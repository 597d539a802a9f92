[package]
name = "world-backup"
version = "0.1.0"
edition = "2021"
publish = false

[dependencies]
anyhow = "1"
chrono = "0.4"
clap = { version = "4", features = ["derive", "env"] }
cron = "0.15"
ctrlc = "3"
env_logger = "0.11"
flate2 = "1"
fs2 = "0.4"
globset = "0.4"
humantime = "2"
libc = "0.2"
log = "0.4"
tar = "0.4"
tempfile = "3"
walkdir = "2"
zip = { version = "2", default-features = false, features = ["deflate"] }
zstd = "0.13"
