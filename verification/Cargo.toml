[package]
name = "oxur"
version = "0.1.0"
edition = "2021"
publish = false

[dependencies]
regex = "=1.13.1"
unicode-normalization = "=0.1.26"
sha2 = "=0.10.9"
serde = { version = "=1.0.229", features = ["derive"] }
serde_json = "=1.0.154"
serde_yaml = "=0.9.34"
toml = "=0.8.23"
chrono = "=0.4.45"
clap = { version = "=4.6.7", features = ["derive"] }
colored = "=2.2.0"
walkdir = "=2.5.0"
glob = "=0.3.4"
uuid = { version = "=1.29.0", features = ["v4"] }
tabled = "=0.22.0"
