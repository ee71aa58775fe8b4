[package]
name = "wallet_service_mirror"
version = "0.1.0"
edition = "2021"
publish = false

[dependencies]
digest = "=0.9.0"
generic-array = "0.14"
hex = "=0.4.3"
pem = "=0.8.3"
rand = "0.8"
reqwest = { version = "0.11", default-features = false, features = ["blocking"] }
rocket = { version = "0.5", features = ["json"] }
rsa = "=0.4.1"
serde = { version = "1", features = ["derive"] }
serde_json = "1"
sha2 = "=0.9.9"
structopt = "0.3"
