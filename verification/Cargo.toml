[package]
name = "cache_streamer"
version = "0.1.0"
edition = "2021"
publish = false

[dependencies]
bytes = "=1.12.1"
parking_lot = "=0.12.5"
ring = "=0.17.14"
hex = "=0.4.3"
chrono = "=0.4.45"
axum = "=0.8.9"
tokio = { version = "=1.53.2", features = ["macros", "rt-multi-thread", "net"] }
reqwest = { version = "=0.13.5", default-features = false, features = ["stream"] }
clap = { version = "=4.6.7", features = ["derive"] }
tower-http = { version = "=0.7.1", features = ["trace"] }
tracing-subscriber = "=0.3.23"
url = "=2.5.8"
headers = "=0.4.2"
http = "=1.5.0"
futures = "=0.3.34"
