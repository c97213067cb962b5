[package]
name = "json2splunk"
version = "0.1.0"
edition = "2021"
publish = false

[dependencies]
chrono = "=0.4.45"
hostname = "=0.4.2"
log = "=0.4.34"
reqwest = { version = "=0.13.5", default-features = false, features = ["blocking", "form"] }
serde_json = "=1.0.151"
uuid = { version = "=1.27.0", features = ["v4"] }
xxhash-rust = { version = "=0.8.19", features = ["xxh3"] }
