[package]
name = "haptics"
version = "1.0.0"
edition = "2021"
publish = false

[dependencies]
anyhow = "1"
rumqttc = "0.24"
serde = { version = "1", features = ["derive"] }
serde_json = "1"
serde_yaml = "0.9"
tokio = { version = "1", features = ["macros", "rt-multi-thread"] }
