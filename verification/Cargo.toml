[package]
name = "asr_compare_tui"
version = "0.1.0"
edition = "2021"
publish = false

[dependencies]
anyhow = "1"
core-foundation = "0.10"
cpal = "0.15"
crossterm = "0.28"
objc2 = "0.6"
objc2-core-audio = "0.3"
objc2-core-audio-types = "0.3"
objc2-foundation = "0.3"
ratatui = "0.29"
sherpa-onnx = "*"
tokio = { version = "1", features = ["sync"] }
tracing = "0.1"
tracing-subscriber = "0.3"
