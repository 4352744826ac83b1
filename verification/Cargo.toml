[package]
name = "i5_req"
version = "0.1.0"
edition = "2021"
publish = false

[dependencies]
base64 = "*"
reqwest = { version = "*", default-features = false, features = ["blocking", "rustls-tls"] }

[dev-dependencies]
serde_json = "*"
