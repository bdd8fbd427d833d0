[package]
name = "ahasecret"
version = "0.1.0"
edition = "2021"
publish = false

[dependencies]
aes-gcm = "=0.10.3"
base64 = "=0.22.1"
pbkdf2 = "=0.12.2"
sha2 = "=0.10.9"
rand_core = { version = "=0.6.4", features = ["getrandom"] }
url = "=2.5.8"
clap = { version = "4", features = ["derive"] }
linkify = "*"
paris = { version = "=1.5.15", features = ["macros"] }
regex = "1"
serde = { version = "1", features = ["derive"] }
serde_json = "1"
form_urlencoded = "1"
scraper = "*"
reqwest = { version = "0.12", default-features = false, features = ["blocking", "cookies", "rustls-tls"] }
