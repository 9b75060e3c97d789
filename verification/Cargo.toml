[package]
name = "imap_status"
version = "0.1.0"
edition = "2021"
publish = false

[dependencies]
imap = "=2.4.1"
libc = "=0.2.191"
native-tls = "=0.2.18"
serde = "=1.0.229"
serde_derive = "=1.0.229"
toml = "=1.1.8"
