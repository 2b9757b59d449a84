[package]
name = "todizzy"
version = "0.1.0"
edition = "2021"
publish = false

[dependencies]
objc2 = "0.5"
objc2-app-kit = { version = "0.2", features = ["all"] }
objc2-foundation = { version = "0.2", features = ["all"] }
serde = { version = "1", features = ["derive"] }
serde_json = "1"
