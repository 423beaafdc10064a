[package]
name = "deepseek_custom"
version = "0.1.0"
edition = "2021"
publish = false

[dependencies]
uuid = { version = "=1.29.0", features = ["v4"] }
base64 = "=0.22.1"
serde = { version = "=1.0.229", features = ["derive"] }
serde_json = "=1.0.154"
serde_yaml = "=0.9.34"
tokio = { version = "=1.54.1", features = ["process", "time", "rt-multi-thread", "macros", "io-util", "sync"] }
async-trait = "=0.1.92"
image = { version = "0.25", default-features = false, features = ["png", "jpeg", "bmp"] }
