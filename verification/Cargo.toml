[package]
name = "ethercat_parser"
version = "0.1.0"
edition = "2021"
publish = false

[dependencies]
anyhow = "1"
byteorder = "1"
chrono = "0.4"
clap = { version = "4", features = ["derive"] }
colored = "2"
hex = "0.4"
pcap = "2"
rand = "0.9"
serde = { version = "1", features = ["derive"] }
serde_json = "1"
signal-hook = "0.3"
