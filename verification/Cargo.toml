[package]
name = "hls_wavelet"
version = "0.1.0"
edition = "2021"
publish = false

[dependencies]
log = "0.4"
pancurses = "0.17"
reqwest = { version = "0.12", features = ["blocking"] }
rodio = "0.20"
rustfft = "6"
simple-logging = "*"
