[package]
name = "ser2mcp"
version = "0.8.7"
edition = "2021"
publish = false

[dependencies]
anyhow = "1"
base64 = "*"
libc = "0.2"
rmcp = { version = "*", features = ["server", "transport-io", "macros"] }
schemars = "*"
serde = { version = "1", features = ["derive"] }
serde_json = "1"
serialport = { version = "*", default-features = false }
tokio = { version = "1", features = ["rt-multi-thread", "macros", "sync", "time"] }
tokio-util = "0.7"
tracing = "0.1"
tracing-subscriber = { version = "0.3", features = ["env-filter"] }
windows-sys = { version = "*", features = ["Win32_Media"] }
