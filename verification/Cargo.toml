[package]
name = "stream_asr"
version = "0.1.0"
edition = "2021"
publish = false

[dependencies]
md-5 = "=0.10.6"
anyhow = "=1.0.104"
ndarray = "=0.17.2"
rustfft = "=6.4.1"
num-traits = "=0.2.19"
serde = { version = "=1.0.229", features = ["derive"] }
cpal = "=0.16.0"
ort = { version = "=2.0.0-rc.15", default-features = false, features = ["std", "ndarray", "load-dynamic", "directml"] }
