[package]
name = "ferret_index"
version = "0.1.0"
edition = "2021"
publish = false

[dependencies]
fxhash = "*"
uuid = { version = "*", features = ["v4"] }
tokio = { version = "*", features = ["fs", "io-util", "macros", "rt", "sync"] }
serde = { version = "*", features = ["derive"] }
bincode = "1"
