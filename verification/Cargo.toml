[package]
name = "epics_base_rs"
version = "0.1.0"
edition = "2021"
publish = false

[dependencies]
tokio = { version = "1", features = ["fs", "rt", "io-util"] }
chrono = { version = "0.4", default-features = false, features = ["clock"] }
rustyline = "*"
