[package]
name = "leaf"
version = "0.1.0"
edition = "2021"
publish = false

[dependencies]
unicode-width = "=0.2.3"
mmdflux = "=2.6.1"
anyhow = "=1.0.104"
crossterm = "=0.29.0"
fs2 = "=0.4.3"
image = { version = "=0.25.10", default-features = false, features = ["png", "jpeg"] }
ratatui = "=0.30.2"
ratatui-image = { version = "=11.1.0", default-features = false, features = ["crossterm"] }
serde = { version = "=1.0.229", features = ["derive"] }
signal-hook = "=0.4.6"
toml = "=1.1.8"
