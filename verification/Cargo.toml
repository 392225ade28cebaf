[package]
name = "input_overlay"
version = "0.1.0"
edition = "2021"
publish = false

[dependencies]
base64 = "0.22"
flate2 = "1"
serde = { version = "1", features = ["derive"] }
serde_json = "1"
tiny-skia = "0.11"
fontdue = "0.9"
image = { version = "0.25", default-features = false, features = ["gif", "png", "jpeg"] }
ureq = { version = "2", default-features = false }
reqwest = { version = "0.12", default-features = false, features = ["json", "stream"] }
futures-util = "0.3"
tokio = { version = "1", features = ["rt-multi-thread", "sync"] }
zip = { version = "2", default-features = false, features = ["deflate"] }
chrono = "0.4"
libc = "0.2"
tracing = "0.1"
tracing-appender = "0.2"
tracing-subscriber = { version = "0.3", features = ["env-filter"] }
