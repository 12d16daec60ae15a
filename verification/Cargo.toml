[package]
name = "winusb_switcher_lite"
version = "0.1.0"
edition = "2021"
publish = false

[dependencies]
tauri = { version = "2", default-features = false }
tokio = { version = "1", features = ["rt", "rt-multi-thread"] }
serde_json = "1"
zip = { version = "2", default-features = false, features = ["deflate"] }
log = "0.4"
ctrlc = "3"
