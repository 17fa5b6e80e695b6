[package]
name = "ascii_arcade"
version = "0.1.0"
edition = "2021"
publish = false

[dependencies]
crossterm = "=0.29.0"
tokio = { version = "=1.54.1", features = ["rt-multi-thread", "macros", "net", "time", "sync"] }
axum = { version = "=0.8.9", features = ["ws"] }
portable-pty = "=0.9.0"
x11rb = "=0.14.0"
smithay-client-toolkit = { version = "0.19", default-features = false }
