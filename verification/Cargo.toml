[package]
name = "rally_timer"
version = "0.1.0"
edition = "2021"
publish = false

[dependencies]
anyhow = "*"
axum = "*"
chrono = "*"
clap = { version = "*", features = ["derive", "env"] }
rumqttc = "*"
serialport = "*"
tokio = { version = "*", features = ["rt-multi-thread", "macros", "sync", "net", "time"] }
tokio-stream = { version = "*", features = ["time"] }
tower-http = { version = "*", features = ["cors"] }
