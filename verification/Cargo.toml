[package]
name = "roxide"
version = "0.1.0"
edition = "2021"
publish = false

[dependencies]
semver = "=1.0.28"
chrono = "=0.4.45"
ignore = "=0.4.34"
console = "=0.15.11"
aes-gcm = "=0.10.3"
pbkdf2 = "=0.12.2"
sha2 = "=0.10.9"
rand = "=0.9.5"
pad = "=0.1.6"
reqwest = { version = "=0.12.28", default-features = false }
serde = { version = "=1.0.229", features = ["derive"] }
bincode = "=1.3.3"
glob = "0.3"
