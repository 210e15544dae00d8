[package]
name = "wifite3"
version = "0.1.0"
edition = "2021"
publish = false

[dependencies]
pcap = "*"
pyo3 = "*"
serde = { version = "1", features = ["derive"] }
