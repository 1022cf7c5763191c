[package]
name = "amberbeam_core"
version = "0.1.0"
edition = "2021"
publish = false

[dependencies]
quick-xml = "=0.42.0"
sha2 = "=0.10.9"
ring = "=0.17.14"
keyring = { version = "=3.6.3", features = ["apple-native", "windows-native", "linux-native"] }
serde = { version = "=1.0.229", features = ["derive"] }
serde_json = "=1.0.154"
dirs = "=6.0.0"
