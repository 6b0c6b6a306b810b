[package]
name = "rustic"
version = "0.1.0"
edition = "2021"
publish = false

[dependencies]
aes256ctr_poly1305aes = "0.1"
anyhow = "1"
base64 = "0.13"
bytesize = "1"
clap = { version = "3", features = ["derive"] }
prettytable-rs = "0.8"
rand = "0.8"
scrypt = { version = "0.8", default-features = false }
serde = { version = "1", features = ["derive"] }
serde_json = "1"
sha2 = "0.10"
tempfile = "3"
vlog = "0.1"
