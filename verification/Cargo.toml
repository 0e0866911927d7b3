[package]
name = "zenmon"
version = "0.1.0"
edition = "2021"
publish = false

[dependencies]
zenoh = { version = "=1.10.2", default-features = false }
serde = { version = "=1.0.229", features = ["derive"] }
serde_json = "=1.0.154"
semver = "=1.0.28"
toml = "=1.1.8"
ratatui = { version = "=0.29.0", default-features = false, features = ["crossterm"] }
crossterm = "=0.28.1"
directories = "=6.0.0"
tokio = { version = "=1.54.1", features = ["rt-multi-thread", "macros", "sync", "time", "process"] }
color-eyre = { version = "=0.6.5", default-features = false }
tracing = "=0.1.44"
tracing-subscriber = { version = "=0.3.23", default-features = false, features = ["fmt"] }
arboard = { version = "=3.7.0", default-features = false }
winreg = "*"
windows-sys = { version = "=0.61.2", features = ["Win32_Foundation", "Win32_UI_WindowsAndMessaging"] }
