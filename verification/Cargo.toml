[package]
name = "adhan_clock"
version = "0.1.0"
edition = "2021"
publish = false

[dependencies]
chrono = "=0.4.45"
serde_json = "=1.0.154"
glob = "=0.3.4"
backtrace = "=0.3.77"
reqwest = { version = "=0.12.28", default-features = false, features = ["blocking", "rustls-tls"] }
rodio = "=0.23.0"
