[package]
name = "keykoff"
version = "1.2.1"
edition = "2021"
publish = false

[dependencies]
serde = { version = "1", features = ["derive"] }
serde_json = "1"
dirs = "*"
global-hotkey = "*"
tray-icon = "*"
raw-window-handle = "0.6"
winreg = "*"
rfd = { version = "*", default-features = false, features = ["gtk3"] }
eframe = { version = "0.30", default-features = false, features = ["default_fonts", "glow", "x11"] }
