[package]
name = "neuragrid"
version = "0.1.0"
edition = "2021"
publish = false

[dependencies]
async-trait = "0.1"
axum = { version = "=0.7.9", features = ["ws"] }
chrono = "=0.4.45"
clap = { version = "4", features = ["derive"] }
futures = "0.3"
futures-util = "0.3"
rand = "=0.8.8"
reqwest = { version = "0.12", default-features = false, features = ["json"] }
serde = { version = "1", features = ["derive"] }
serde_json = "=1.0.154"
sqlx = { version = "=0.8.6", features = ["sqlite", "runtime-tokio"] }
sysinfo = "0.30"
tokio = { version = "1", features = ["full"] }
tokio-tungstenite = "=0.24.0"
tower-http = { version = "=0.5.2", features = ["fs"] }
tracing = "0.1"
tracing-subscriber = "0.3"
url = "2"
uuid = { version = "=1.29.0", features = ["v4"] }
wgpu = "22"
