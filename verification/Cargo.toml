[package]
name = "pi_webcam_streamer"
version = "0.1.0"
edition = "2021"
publish = false

[dependencies]
humantime = "2"
mime_guess = "2"
anyhow = "1"
axum = "0.8"
chrono = "0.4"
clap = { version = "4", features = ["derive"] }
config = { version = "0.15", default-features = false, features = ["toml"] }
futures = "0.3"
image = { version = "0.25", default-features = false, features = ["jpeg"] }
libc = "0.2"
nokhwa = { version = "0.10", features = ["input-native"] }
rust-embed = "8"
serde = { version = "1", features = ["derive"] }
tokio = { version = "1", features = ["full"] }
tokio-stream = { version = "0.1", features = ["sync"] }
tower-http = { version = "0.6", features = ["fs"] }
