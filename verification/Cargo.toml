[package]
name = "tepora_core"
version = "0.1.0"
edition = "2021"
publish = false

[dependencies]
petgraph = "=0.8.3"
chrono = "=0.4.45"
serde = { version = "=1.0.229", features = ["derive"] }
serde_json = "=1.0.154"
async-trait = "=0.1.92"
uuid = { version = "=1.29.0", features = ["v4"] }
aes-gcm = "=0.10.3"
hex = "=0.4.3"
rand = "0.8"
