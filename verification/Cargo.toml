[package]
name = "sticker_nah"
version = "0.1.0"
edition = "2021"
publish = false

[dependencies]
serde = { version = "=1.0.229", features = ["derive"] }
serde_json = "=1.0.154"
image = { version = "=0.25.10", default-features = false, features = ["png"] }
arboard = { version = "=3.7.0", default-features = false, features = ["image-data"] }
clipboard-win = "=5.4.3"
tauri = { version = "=2.12.5", default-features = false }
tauri-plugin-android-fs = "=30.2.0"
