[package]
name = "galopen"
version = "0.1.0"
edition = "2021"
publish = false

[dependencies]
chrono = "0.4"
regex = "1"
sys-locale = "0.3"
log = "0.4"
open = "5"
serde = { version = "1", features = ["derive"] }
tokio = { version = "1", features = ["rt", "time"] }
