[package]
name = "plojo"
version = "0.1.0"
edition = "2021"
publish = false

[dependencies]
regex = "1"
serde = { version = "1", features = ["derive"] }
serde_json = "1"
chrono = "0.4"
clap = "2"
dirs = "*"
itertools = "*"
serialport = { version = "4", default-features = false }
rdev = "*"
enigo = "0.1"
