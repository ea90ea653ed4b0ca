[package]
name = "drcom"
version = "0.1.0"
edition = "2021"
publish = false

[dependencies]
md-5 = "0.10"
rand = "0.8"
serde = { version = "1", features = ["derive"] }
serde_json = "1"
toml = "*"
dirs = "*"
network-interface = "*"
tiny_http = "*"
webbrowser = "*"
tao = "*"
tray-icon = "*"
