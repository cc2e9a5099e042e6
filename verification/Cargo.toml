[package]
name = "wow_recorder"
version = "0.1.0"
edition = "2021"
publish = false

[dependencies]
regex = "=1.13.1"
serde = { version = "=1.0.229", features = ["derive"] }
serde_json = "=1.0.154"
chrono = "=0.4.45"
dirs = "=7.0.0"
log = "=0.4.35"
env_logger = "=0.11.11"
thiserror = "=2.0.21"
open = "=5.4.5"
windows = { version = "0.58", features = ["Win32_Foundation", "Win32_UI_WindowsAndMessaging"] }
