[package]
name = "skyfire"
version = "0.1.0"
edition = "2021"
publish = false

[dependencies]
axum = "0.8"
broadcast-common = "=9.4.0"
clap = { version = "4", features = ["derive"] }
dvb-si = "=11.1.0"
dvb-subtitle = "=0.5.0"
flate2 = "=1.1.10"
h264-reader = "=0.9.0"
oxideav-ac3 = "=0.0.11"
oxideav-core = "=0.1.42"
serde = { version = "1", features = ["derive"] }
serde_json = "1"
symphonia = { version = "=0.5.5", default-features = false, features = ["mpa"] }
tokio = { version = "1", features = ["rt-multi-thread", "macros", "net", "time"] }
tower-http = { version = "0.7", features = ["cors"] }
transmux = "=0.26.0"
wasm-bindgen = "0.2"
