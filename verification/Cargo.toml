[package]
name = "cos-fuse-demo"
version = "0.1.0"
edition = "2021"
publish = false

[dependencies]
anyhow = "1"
bytes = "1"
clap = "4"
ctrlc = "3"
env_logger = "0.11"
fuser = { version = "0.15", default-features = false }
libc = "0.2"
log = "0.4"
lru = "0.12"
reqwest = { version = "0.12", default-features = false, features = ["rustls-tls"] }
tokio = { version = "1", features = ["rt-multi-thread"] }

[dev-dependencies]
tempfile = "3"
