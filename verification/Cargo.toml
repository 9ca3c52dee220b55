[package]
name = "vac_downloader_gui"
version = "0.1.0"
edition = "2021"
publish = false

[dependencies]
dirs = "6"
image = { version = "0.25", default-features = false, features = ["png"] }
open = "5"
rfd = "0.15"
serde = { version = "1", features = ["derive"] }
toml = "0.8"
vac_downloader = "0.5"
