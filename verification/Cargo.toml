[package]
name = "llmtrim"
version = "0.1.0"
edition = "2021"
publish = false

[dependencies]
anyhow = "1"
auto-launch = "*"
chrono = "0.4"
proxy-wasm = "0.2"
rusqlite = { version = "*", features = ["bundled"] }
serde_json = { version = "1", features = ["preserve_order"] }
unicode-segmentation = "1"
winreg = "*"
