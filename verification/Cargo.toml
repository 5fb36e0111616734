[package]
name = "compactor"
version = "0.1.0"
edition = "2021"
publish = false

[dependencies]
jiff = "*"
chrono = "*"
serde = { version = "*", features = ["derive"] }
