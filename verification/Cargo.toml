[package]
name = "flagpick"
version = "0.1.0"
edition = "2021"
publish = false

[dependencies]
rustix = { version = "1", features = ["event", "process"] }
serde = { version = "1", features = ["derive"] }
serde_json = "1"
