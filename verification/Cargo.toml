[package]
name = "cpu_monitor"
version = "0.1.0"
edition = "2021"
publish = false

[dependencies]
anyhow = "1"
axum = "0.7"
chrono = "0.4"
clap = { version = "4", features = ["derive", "env"] }
freetype-rs = "*"
hostname = "0.4"
image = { version = "0.25", default-features = false, features = ["png"] }
ksni = "0.2"
open = "5"
serde = { version = "1", features = ["derive"] }
serde_json = "1"
tiny-skia = "0.11"
tokio = { version = "1", features = ["rt-multi-thread", "macros", "sync", "time", "signal", "net"] }
tracing = "0.1"
tracing-subscriber = { version = "0.3", features = ["env-filter"] }
