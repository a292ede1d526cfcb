[package]
name = "martin"
version = "0.1.0"
edition = "2021"
publish = false

[dependencies]
serde = { version = "1", features = ["derive"] }
serde_json = "1"
rusqlite = { version = "0.32", features = ["bundled"] }
hound = "3.5"
cpal = "0.15"
whisper-rs = "0.14"
reqwest = { version = "0.12", features = ["blocking"] }
libc = "0.2"
