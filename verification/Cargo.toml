[package]
name = "devtui"
version = "0.1.0"
edition = "2021"
publish = false

[dependencies]
base64 = "0.22.1"
crossterm = "0.28"
gh-emoji = "1.0"
headless_chrome = "1.0"
log = "0.4"
portable-pty = "0.9"
pulldown-cmark = "0.12"
ratatui = "0.29"
rusqlite = { version = "0.31", features = ["bundled"] }
serde = { version = "1", features = ["derive"] }
serde_json = "1"
simplelog = "0.12"
syntect = { version = "5", default-features = false, features = ["default-fancy"] }
toml = "0.8"
tui-term = "0.2.0"
vt100 = "0.15"
