[package]
name = "dekit"
version = "0.1.0"
edition = "2021"
publish = false

[dependencies]
anyhow = "1"
indexmap = "2"
libc = "0.2"
log = "0.4"
rustix = { version = "1", features = ["process", "termios"] }
serde = { version = "1", features = ["derive"] }
serde_yaml = "0.9"
tokio = { version = "1", features = ["full"] }
unicode-width = "0.2"
