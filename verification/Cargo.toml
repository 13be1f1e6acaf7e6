[package]
name = "sirucord"
version = "0.6.0"
edition = "2021"
publish = false

[dependencies]
ab_glyph = "0.2"
aes-gcm = "0.10"
anyhow = "1"
base64 = "0.22"
chrono = { version = "0.4", features = ["serde"] }
clap = { version = "4", features = ["derive"] }
futures-util = "0.3"
hkdf = "0.12"
image = { version = "0.25", default-features = false, features = ["png", "jpeg", "webp", "gif"] }
linkify = "0.10"
reqwest = { version = "0.12", default-features = false, features = ["json", "multipart", "rustls-tls"] }
scraper = "*"
serde = { version = "1", features = ["derive"] }
serde_json = "1"
sha2 = "0.10"
tokio = { version = "1", features = ["macros", "rt-multi-thread", "time", "net"] }
tokio-tungstenite = { version = "*", features = ["rustls-tls-webpki-roots"] }
toml = "0.9"
uuid = { version = "1", features = ["v4"] }
