[package]
name = "hammond_b3"
version = "0.1.0"
edition = "2021"
publish = false

[dependencies]
serde = { version = "1", features = ["derive"] }
toml = "0.8"
image = { version = "0.25", default-features = false, features = ["jpeg"] }
tracing = "0.1"
tracing-subscriber = "0.3"
