[package]
name = "autorec"
version = "0.2.0"
edition = "2021"
publish = false

[dependencies]
serde = { version = "1", features = ["derive"] }
serde_json = "1"
toml = "0.8"
ureq = { version = "2", features = ["json"] }
crossterm = "0.27"
symphonia = { version = "0.5", features = ["mp3", "flac", "wav", "pcm"] }
pipewire = "0.8"
rand = "0.8"
uuid = { version = "1", features = ["v4"] }
