[package]
name = "rsdsp"
version = "0.1.0"
edition = "2021"
publish = false

[dependencies]
num = "0.4"
rustfft = "6"
ndarray = "0.15"
ndarray-npy = "0.8"
clap = { version = "4", features = ["derive"] }
serde = { version = "1", features = ["derive"] }
serde_yaml = "0.9"
