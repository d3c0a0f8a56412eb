[package]
name = "hasuchanbot"
version = "0.1.0"
edition = "2021"
publish = false

[dependencies]
base64 = "=0.13.1"
rand = "=0.8.8"
log = "=0.4.35"
lazy_static = "=1.5.1"
teloxide = { version = "=0.5.3", features = ["macros", "auto-send"] }
tokio = { version = "=1.54.1", features = ["rt-multi-thread", "macros", "sync"] }
tokio-stream = "=0.1.19"
tokio-util = { version = "=0.6.10", features = ["codec"] }
pretty_env_logger = "0.4"
