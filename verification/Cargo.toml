[package]
name = "reactor"
version = "0.1.0"
edition = "2021"
publish = false

[dependencies]
mio = { version = "0.8", features = ["net", "os-poll"] }
