[package]
name = "audio_eq"
version = "0.1.0"
edition = "2021"
publish = false

[dependencies]
anyhow = "1"
biquad = "0.4"
clap = { version = "4", features = ["derive"] }
cpal = "0.15"
ringbuf = "0.3"
rodio = "0.19"
thiserror = "1"
