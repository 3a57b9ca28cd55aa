[package]
name = "deepseek_tui"
version = "0.1.0"
edition = "2021"
publish = false

[dependencies]
anyhow = "1"
async-trait = "0.1"
dirs = "6"
futures-util = "0.3"
ratatui = { version = "0.29", default-features = false }
serde_json = "1"
tracing = "0.1"
windows = { version = "0.60", features = ["Win32_System_Diagnostics_Debug", "Win32_UI_WindowsAndMessaging"] }
