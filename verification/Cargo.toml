[package]
name = "audio_io"
version = "0.5.0"
edition = "2021"
publish = false

[dependencies]
audio-blocks = "*"
cpal = "*"
cxx-juce = "*"
rtrb = "*"
serde = { version = "1", features = ["derive"] }
thiserror = "*"
