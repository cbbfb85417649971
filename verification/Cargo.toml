[package]
name = "depscop"
version = "0.2.0"
edition = "2021"
publish = false

[dependencies]
regex = "1"
glob = "0.3"
serde = { version = "1", features = ["derive"] }
serde_json = "1"
figment = { version = "0.10", features = ["json"] }
clap = { version = "4", features = ["derive"] }
chrono = "0.4"
walkdir = "2"
serde-xml-rs = "*"
