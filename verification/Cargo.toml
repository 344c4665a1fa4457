[package]
name = "storm_almanac"
version = "0.1.0"
edition = "2021"
publish = false

[dependencies]
chrono = "=0.4.45"
log = "=0.4.35"
notify = "=6.1.1"
reqwest = { version = "=0.12.28", default-features = false, features = ["multipart"] }
serde_json = "=1.0.154"
tauri = { version = "=2.12.5", default-features = false }
tokio = { version = "=1.54.1", features = ["sync", "time", "rt", "macros"] }
uuid = { version = "=1.29.0", features = ["v4"] }
windows = { version = "=0.62.2", features = ["Win32_Foundation", "Win32_UI_WindowsAndMessaging"] }
