[package]
name = "quiet_water"
version = "0.1.0"
edition = "2021"
publish = false

[dependencies]
anyhow = "=1.0.104"
chrono = "=0.4.45"
clap = { version = "=4.6.7", features = ["derive"] }
hound = "=3.5.1"
reqwest = "=0.13.5"
rig-core = "=0.32.0"
tokio = { version = "=1.54.1", features = ["macros", "rt-multi-thread"] }
whisper-rs = "=0.16.0"
