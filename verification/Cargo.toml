[package]
name = "ipstats"
version = "0.1.0"
edition = "2021"
publish = false

[dependencies]
axum = "*"
clap = { version = "*", features = ["derive"] }
pcap = "*"
tokio = { version = "*", features = ["full"] }
