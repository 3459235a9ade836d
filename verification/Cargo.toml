[package]
name = "steamdepot"
version = "0.1.0"
edition = "2021"
publish = false

[dependencies]
aes = "0.8"
base64 = "0.22"
bytes = "1"
cbc = { version = "0.1", features = ["std"] }
clap = { version = "4", features = ["derive"] }
flate2 = "1"
futures-util = { version = "0.3", features = ["sink"] }
lzma-rs = "0.3"
prost = "0.13"
reqwest = { version = "0.12", default-features = false, features = ["rustls-tls", "json"] }
rsa = "0.9"
ruzstd = "0.7"
serde = { version = "1", features = ["derive"] }
serde_json = "1"
sha1 = "0.10"
tokio = { version = "1", features = ["full"] }
tokio-tungstenite = { version = "0.26", features = ["rustls-tls-webpki-roots"] }
zip = { version = "2", default-features = false, features = ["deflate"] }
