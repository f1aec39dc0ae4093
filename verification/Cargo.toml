[package]
name = "vosk_commands"
version = "0.1.0"
edition = "2021"
publish = false

[dependencies]
chrono = "0.4"
serde_json = "1"
tokio = { version = "1", features = ["io-std", "io-util", "macros", "rt"] }
vosk = "0.3"
