[package]
name = "audio_server"
version = "0.1.0"
edition = "2021"
publish = false

[dependencies]
fxhash = "=0.2.1"
time_calc = "=0.14.0"
rustfft = "=6.4.1"
serde = { version = "=1.0.229", features = ["derive"] }
serde_json = "=1.0.154"
nannou = { version = "=0.19.0", default-features = false }
