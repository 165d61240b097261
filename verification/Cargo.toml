[package]
name = "oops_terminal"
version = "0.1.0"
edition = "2021"
publish = false

[dependencies]
base64 = "0.22"
serde = { version = "1", features = ["derive"] }
serde_json = "1"
chrono = "0.4"
rusqlite = { version = "*", features = ["bundled"] }
portable-pty = "*"
log = "0.4"
dirs = "*"
tokio = { version = "1", features = ["rt"] }
