[package]
name = "tradier_events"
version = "0.1.0"
edition = "2021"
publish = false

[dependencies]
serde = { version = "1", features = ["derive"] }
serde_json = "1"
substring = "1"
tokio = { version = "1", features = ["macros", "rt-multi-thread", "io-std"] }
reqwest = { version = "0.11", default-features = false, features = ["rustls-tls"] }
tungstenite = { version = "0.20", features = ["rustls-tls-webpki-roots"] }
url = "2"
dotenv = "0.15"
ftp = "3"
