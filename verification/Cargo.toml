[package]
name = "airtunes"
version = "0.1.0"
edition = "2021"
publish = false

[dependencies]
chrono = "0.4"
tokio = { version = "1", features = ["net", "rt", "rt-multi-thread", "macros", "time"] }
socket2 = "0.5"
