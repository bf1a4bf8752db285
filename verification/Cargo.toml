[package]
name = "grapevine"
version = "0.1.0"
edition = "2021"
publish = false

[dependencies]
bytes = "1"
chrono = "0.4"
prost = "0.12"
tonic = "0.10"
tokio = { version = "1", features = ["full"] }
tokio-util = { version = "0.7", features = ["codec", "net"] }
tokio-stream = "0.1"
futures = "0.3"
async-stream = "0.3"
async-trait = "0.1"
pin-project = "1"
socket2 = { version = "0.5", features = ["all"] }
sqlx = { version = "0.7", default-features = false, features = ["sqlite", "runtime-tokio", "macros"] }
thiserror = "1"
tracing = "0.1"
