[package]
name = "lazydeck"
version = "0.1.0"
edition = "2021"
publish = false

[dependencies]
ansi-to-tui = "7"
anyhow = "=1.0.104"
base64 = "=0.22.1"
chrono = "=0.4.45"
crossterm = "=0.28.1"
libc = "0.2"
md5 = "=0.7.0"
mlua = { version = "=0.10.5", features = ["luajit", "vendored"] }
open = "5"
percent-encoding = "=2.3.2"
ratatui = "=0.29.0"
reqwest = { version = "=0.12.28", default-features = false, features = ["rustls-tls"] }
scraper = "*"
serde = { version = "=1.0.229", features = ["derive"] }
serde_json = "=1.0.154"
serde_yaml = "0.9"
shell-words = "=1.1.1"
syntect = { version = "=5.3.0", default-features = false, features = ["default-fancy"] }
tokio = { version = "=1.54.1", features = ["rt", "macros", "sync", "time", "fs", "io-util", "net"] }
unicode-width = "=0.2.0"
which = "=7.0.3"
