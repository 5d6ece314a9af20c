[package]
name = "lapi-launcher"
version = "0.1.0"
edition = "2021"
publish = false

[dependencies]
nucleo-matcher = "=0.3.1"
anyhow = "=1.0.104"
crossterm = "=0.29.0"
freedesktop-desktop-entry = { version = "=0.7.19", default-features = false }
image = { version = "=0.25.10", default-features = false, features = ["png", "jpeg", "gif", "webp", "ico"] }
ratatui = "=0.30.2"
ratatui-image = { version = "=11.1.0", default-features = false, features = ["crossterm", "image-defaults"] }
serde = { version = "=1.0.229", features = ["derive"] }
toml = "=1.1.8"
