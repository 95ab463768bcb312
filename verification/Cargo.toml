[package]
name = "douyin-cli"
version = "0.1.0"
edition = "2021"
publish = false

[dependencies]
url = "2"
percent-encoding = "2"
serde_json = "1"
clap = { version = "4", features = ["derive", "env"] }
reqwest = { version = "0.12", default-features = false, features = ["blocking", "json", "rustls-tls"] }
ring = "0.17"
base64 = "0.22"
qrcode = { version = "0.14", default-features = false }
symphonia = "*"
whisper-rs = "*"
