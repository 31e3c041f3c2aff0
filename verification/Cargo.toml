[package]
name = "aetherlink"
version = "0.1.0"
edition = "2021"
publish = false

[dependencies]
bytes = "1"
chacha20poly1305 = "0.10"
hkdf = "0.12"
hmac = "0.12"
jni = "0.21"
once_cell = "1"
rand = "0.8"
rustls = { version = "0.23", default-features = false, features = ["ring", "std", "tls12"] }
rustls-native-certs = "0.8"
rustls-pemfile = "2"
serde = { version = "1", features = ["derive"] }
serde_json = "1"
serde_yaml = "0.9"
sha2 = "0.10"
smoltcp = { version = "0.11", default-features = false, features = ["std", "medium-ip", "proto-ipv4", "socket-tcp", "socket-udp"] }
subtle = "2"
thiserror = "1"
webpki-roots = "0.26"
zeroize = { version = "1", features = ["derive"] }
