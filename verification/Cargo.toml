[package]
name = "thecurse"
version = "0.1.0"
edition = "2021"
publish = false

[dependencies]
crc = "=3.4.0"
serde = { version = "=1.0.229", features = ["derive"] }
postcard = { version = "=1.1.3", features = ["alloc"] }
smol = "2"
