[package]
name = "arenic"
version = "0.1.0"
edition = "2021"
publish = false

[dependencies]
bevy_platform = "0.17"
bevy_math = "0.17"
serde = { version = "1", features = ["derive"] }
ron = "0.10"
