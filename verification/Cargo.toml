[package]
name = "uzwatch"
version = "0.1.0"
edition = "2021"
publish = false

[dependencies]
serde = { version = "1", features = ["derive"] }
serde_json = "1"
base64 = "0.22"
urlencoding = "2"
ureq = { version = "3", features = ["json"] }
fs2 = "0.4"
signal-hook = "0.3"
chrono = "0.4"
