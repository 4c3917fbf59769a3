[package]
name = "soundfiller_studio"
version = "0.1.0"
edition = "2021"
publish = false

[dependencies]
uuid = { version = "1", features = ["v4"] }
serde = { version = "1", features = ["derive"] }
serde_json = "1"
chrono = "0.4"
rustfft = "6"
symphonia = { version = "0.5", features = ["mp3"] }
log = "0.4"
