[package]
name = "frona-server"
version = "0.1.0"
edition = "2021"
publish = false

[dependencies]
pulldown-cmark = { version = "0.13", default-features = false }
hmac = "0.12"
sha1 = "0.10"
sha2 = "0.10"
base64 = "0.22"
hex = "0.4"
rand = "0.8"
url = "2"
smol_str = "0.3"
subtle = "2"
serde = { version = "1", features = ["derive"] }
serde_json = "1"
telegram-markdown-v2 = "*"
markdown = "1"
