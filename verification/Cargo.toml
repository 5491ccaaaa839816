[package]
name = "sst_importer"
version = "0.1.0"
edition = "2021"
publish = false

[dependencies]
crc = "=1.8.1"
uuid = { version = "=0.6.5", features = ["v4"] }
