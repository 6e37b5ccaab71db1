[package]
name = "falconshot"
version = "0.1.0"
edition = "2021"
publish = false

[dependencies]
image = { version = "0.25", default-features = false, features = ["png", "jpeg", "bmp", "webp"] }
regex = "1"
serde = { version = "1", features = ["derive"] }
serde_json = "1"
anyhow = "1"
async-trait = "0.1"
tokio = { version = "1", features = ["rt", "sync", "macros"] }
reqwest = { version = "0.12", default-features = false, features = ["json"] }
sys-locale = "0.3"
urlencoding = "2"
windows-sys = { version = "0.59", features = ["Win32_UI_WindowsAndMessaging"] }
