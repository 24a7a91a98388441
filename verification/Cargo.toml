[package]
name = "innernet_rp"
version = "0.1.0"
edition = "2021"
publish = false

[dependencies]
getrandom = "0.3"
subtle = "2"
sha2 = "0.10"
base64 = "0.22"
serde = { version = "1", features = ["derive"] }
serde_json = "1"
zeroize = "1"
libc = "0.2"
anyhow = "1"
thiserror = "2"
log = "0.4"
