[package]
name = "twixelbox_bot"
version = "0.1.0"
edition = "2021"
publish = false

[dependencies]
rusqlite = { version = "*", features = ["bundled"] }
thiserror = "*"
image = { version = "*", default-features = false, features = ["png"] }
tempfile = "*"
tokio = { version = "*", features = ["rt-multi-thread", "macros", "sync", "time", "io-std", "io-util"] }
serde = { version = "*", features = ["derive"] }
toml = "*"
log = "*"
simple_logger = "*"
