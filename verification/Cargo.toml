[package]
name = "shellglass"
version = "0.1.0"
edition = "2021"
publish = false

[dependencies]
anyhow = "1"
axum = "0.8"
base64 = "=0.22.1"
bytes = "=1.12.1"
clap = { version = "4", features = ["derive", "env"] }
futures-util = { version = "0.3", features = ["sink"] }
getrandom = "=0.3.4"
libc = "0.2"
portable-pty = "=0.9.0"
reqwest = { version = "=0.13.5", default-features = false }
reqwest-websocket = "=0.6.0"
rustix = { version = "1", features = ["termios", "stdio"] }
serde_json = { version = "=1.0.154", features = ["preserve_order"] }
signal-hook = "0.3"
tokio = { version = "1", features = ["full"] }
tokio-stream = { version = "0.1", features = ["sync"] }
tower-http = { version = "0.6", features = ["cors"] }
unicode-width = "=0.2.3"
vte = "=0.15.0"
