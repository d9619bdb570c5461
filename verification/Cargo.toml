[package]
name = "compleo"
version = "0.1.0"
edition = "2021"
publish = false

[dependencies]
serde = { version = "1", features = ["derive"] }
serde_json = "1"
reqwest = { version = "0.12", default-features = false, features = ["json", "stream", "rustls-tls"] }
rusqlite = { version = "*", features = ["bundled"] }
tokio = { version = "1", features = ["rt-multi-thread", "sync", "time", "macros"] }
futures = "0.3"
log = "0.4"
dirs = "*"
thiserror = "*"
core-foundation = "*"
core-foundation-sys = "*"
core-graphics = "*"
objc2-app-kit = "*"
objc2-foundation = "*"
window-vibrancy = "*"
