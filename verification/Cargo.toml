[package]
name = "loquazx"
version = "0.1.0"
edition = "2021"
publish = false

[dependencies]
uuid = { version = "1", features = ["v4"] }
serde = { version = "1", features = ["derive"] }
serde_json = "1"
hound = "3"
reqwest = { version = "0.12", default-features = false, features = ["blocking", "rustls-tls"] }
rustls = "0.23"
msedge-tts = "*"
whisper-rs = "*"
tokenizers = "*"
ort = "2.0.0-rc.15"
piper-rs = "*"
