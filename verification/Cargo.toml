[package]
name = "signed_xml"
version = "0.1.0"
edition = "2021"
publish = false

[dependencies]
base64 = "=0.23.1"
quick-xml = "=0.36.2"
rsa = { version = "=0.9.10", features = ["getrandom"] }
sha2 = { version = "=0.10.9", features = ["oid"] }
