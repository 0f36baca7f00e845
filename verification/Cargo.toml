[package]
name = "dunedrop"
version = "0.1.0"
edition = "2021"
publish = false

[dependencies]
serde = { version = "=1.0.229", features = ["derive"] }
tokio = { version = "=1.54.1", features = ["process", "io-util", "rt"] }
windows-sys = { version = "=0.61.2", features = ["Win32_Foundation", "Win32_System_JobObjects", "Win32_System_Threading"] }
tauri = { version = "=2.12.5", default-features = false, features = ["wry"] }
