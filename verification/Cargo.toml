[package]
name = "storm_switch"
version = "0.1.0"
edition = "2021"
publish = false

[dependencies]
serde = { version = "1", features = ["derive"] }
serde_json = "1"
uuid = { version = "1", features = ["v4"] }
chrono = "0.4"
dirs = "*"
winreg = "*"
tauri = { version = "2", default-features = false, features = ["tray-icon"] }
tauri-plugin-store = "2"
