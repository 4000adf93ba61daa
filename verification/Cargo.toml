[package]
name = "lowresourcecapture"
version = "0.1.0"
edition = "2021"
publish = false

[dependencies]
anyhow = "1"
base64 = "0.22"
directories = "*"
global-hotkey = "*"
log = "0.4"
serde = { version = "1", features = ["derive"] }
serde_json = "1"
tao = "*"
toml = "*"
tray-icon = "*"
windows = "*"
wry = "*"
