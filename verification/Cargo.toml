[package]
name = "knob_events"
version = "0.1.0"
edition = "2021"
publish = false

[dependencies]
hidapi = "2"
tauri = { version = "2", default-features = false, features = ["wry"] }
tokio = { version = "1", features = ["rt"] }
