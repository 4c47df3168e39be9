[package]
name = "ksud"
version = "0.1.0"
edition = "2021"
publish = false

[dependencies]
android_logger = "=0.13.3"
anyhow = "=1.0.104"
clap = { version = "=4.6.7", features = ["derive"] }
const_format = "=0.2.37"
env_logger = "=0.10.2"
libc = "0.2"
log = "=0.4.34"
rust-embed = "=8.13.0"
sha2 = "=0.10.9"
zip = { version = "2", default-features = false, features = ["deflate"] }
