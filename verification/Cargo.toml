[package]
name = "tacho_bridge"
version = "0.1.0"
edition = "2021"
publish = false

[dependencies]
hex = "*"
log = "*"
pcsc = "*"
rumqttc = "*"
serde = { version = "*", features = ["derive"] }
serde_yaml = "*"
tokio = { version = "*", features = ["rt-multi-thread", "macros", "time", "sync"] }

[dev-dependencies]
serde_json = "*"
