[package]
name = "nyquist_lib"
version = "0.1.0"
edition = "2021"
publish = false

[dependencies]
base64 = "0.22"
symphonia = { version = "*", features = ["all"] }
rustfft = "6"
ebur128 = "0.1"
rayon = "1"
serde = { version = "1", features = ["derive"] }
serde_json = "1"
rodio = "*"
