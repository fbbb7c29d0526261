[package]
name = "panea"
version = "0.1.0"
edition = "2021"
publish = false

[dependencies]
serde = { version = "=1.0.229", features = ["derive"] }
serde_json = "=1.0.154"
webbrowser = "=1.2.6"
arboard = "=3.7.0"
notify-rust = "=4.18.2"
image = { version = "=0.25.10", default-features = false, features = ["gif", "png"] }
starship-battery = "=0.12.0"
unicode-width = "0.2"
