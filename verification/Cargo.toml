[package]
name = "kdeconnect"
version = "0.1.0"
edition = "2021"
publish = false

[dependencies]
tokio = { version = "=1.53.2", features = ["rt-multi-thread", "net", "io-util", "sync", "time", "macros"] }
tokio-rustls = { version = "=0.24.1", features = ["dangerous_configuration"] }
socket2 = "=0.5.10"

[dev-dependencies]
serde_json = "=1.0.151"
