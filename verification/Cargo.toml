[package]
name = "devin-usage"
version = "0.1.0"
edition = "2021"
publish = false

[dependencies]
aes-gcm = "=0.10.3"
base64 = "=0.22.1"
chrono = "=0.4.45"
getrandom = "=0.2.17"
rusqlite = { version = "=0.31.0", features = ["bundled"] }
serde_json = "=1.0.154"
sha2 = "=0.10.9"
ureq = { version = "=2.12.1", features = ["json"] }
