[package]
name = "openkakao_cli"
version = "0.1.0"
edition = "2021"
publish = false

[dependencies]
sha1 = "=0.10.7"
sha2 = "=0.10.9"
hmac = "=0.12.1"
base64 = "=0.22.1"
hex = "=0.4.3"
anyhow = "=1.0.104"
dirs = "=5.0.1"
toml = "=0.8.23"
serde = { version = "=1.0.229", features = ["derive"] }
serde_json = "1"
owo-colors = "4"
plist = "=1.10.3"
rusqlite = { version = "=0.31.0", features = ["bundled-sqlcipher"] }
accessibility = "=0.1.6"
accessibility-sys = "=0.1.3"
core-foundation = "=0.9.4"
core-graphics = "=0.23.2"
