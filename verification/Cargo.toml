[package]
name = "mqtt_bench"
version = "0.1.0"
edition = "2021"
publish = false

[dependencies]
dotenvy = "*"
rumqttc = { version = "*", default-features = false }
serde = { version = "1", features = ["derive"] }
serde_json = "1"
tokio = { version = "1", features = ["macros", "rt-multi-thread", "sync", "time"] }
