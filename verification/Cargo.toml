[package]
name = "transcriber_kun"
version = "0.1.0"
edition = "2021"
publish = false

[dependencies]
serde = { version = "1", features = ["derive"] }
serde_json = "1"
tokio = { version = "1", features = ["process", "io-util", "sync", "rt"] }
tauri = { version = "2", default-features = false }
tauri-plugin-dialog = "2"
