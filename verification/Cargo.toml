[package]
name = "vts_hotkeys"
version = "0.1.0"
edition = "2021"
publish = false

[dependencies]
anyhow = "*"
tokio = { version = "*", features = ["full"] }
vtubestudio = "*"
