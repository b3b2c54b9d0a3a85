[package]
name = "sqwok"
version = "0.1.0"
edition = "2021"
publish = false

[dependencies]
aes-gcm = "=0.10.3"
anyhow = "=1.0.104"
base64 = "=0.22.1"
chrono = "=0.4.45"
clap = { version = "=4.6.7", features = ["derive"] }
crossterm = { version = "=0.28.1", features = ["event-stream"] }
dialoguer = "=0.11.0"
directories = "=5.0.1"
ed25519-dalek = { version = "=2.2.0", features = ["rand_core"] }
futures-util = "=0.3.34"
hkdf = "=0.12.4"
pem = "=3.0.6"
qrcode = "=0.14.1"
rand = "=0.8.8"
ratatui = "=0.29.0"
rcgen = "0.13"
reqwest = { version = "=0.12.28", default-features = false, features = ["json", "blocking", "rustls-tls"] }
ring = "=0.17.14"
rusqlite = { version = "=0.32.1", features = ["bundled"] }
serde = { version = "=1.0.229", features = ["derive"] }
serde_json = "=1.0.154"
sha2 = "=0.10.9"
terminal_size = "=0.4.4"
tokio = { version = "=1.54.1", features = ["full"] }
tokio-stream = "=0.1.19"
tokio-tungstenite = { version = "=0.24.0", features = ["rustls-tls-webpki-roots"] }
unicode-width = "=0.2.0"
uuid = { version = "=1.29.0", features = ["v4"] }
x25519-dalek = { version = "=2.0.1", features = ["static_secrets"] }
zeroize = { version = "=1.9.1", features = ["derive"] }
