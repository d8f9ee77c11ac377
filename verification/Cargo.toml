[package]
name = "nobsign"
version = "0.1.0"
edition = "2021"
publish = false

[dependencies]
base64 = { version = "=0.23.1", default-features = false, features = ["std"] }
byteorder = "=1.5.0"
ring = "=0.17.14"
