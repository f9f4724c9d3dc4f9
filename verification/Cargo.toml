[package]
name = "patchbay"
version = "0.1.0"
edition = "2021"
publish = false

[dependencies]
anyhow = "1"
clap = "4"
cpal = "0.15"
ringbuf = "0.3"
serde = { version = "1", features = ["derive"] }
serde_json = "1"
signal-hook = "0.3"
sysinfo = "0.30"
uuid = { version = "1", features = ["v4", "serde"] }
