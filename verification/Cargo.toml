[package]
name = "mbus_parser"
version = "0.1.0"
edition = "2021"
publish = false

[dependencies]
arrayvec = "*"
serde = { version = "*", features = ["derive"] }
