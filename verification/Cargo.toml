[package]
name = "rust_daemon"
version = "1.2.0"
edition = "2021"
publish = false

[dependencies]
axum = "0.8"
tokio = { version = "1", features = ["rt-multi-thread", "macros", "signal", "process", "io-util", "time", "net"] }
serde = { version = "1", features = ["derive"] }
serde_json = "1"
hmac = "0.12"
sha2 = "0.10"
hex = "0.4"
rand = "0.8"
sysinfo = { version = "0.30", default-features = false }
chrono = { version = "0.4", default-features = false, features = ["clock"] }
hostname = "0.4"
libc = "0.2"
dotenvy = "0.15"
