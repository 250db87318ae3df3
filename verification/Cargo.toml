[package]
name = "voicecore"
version = "0.1.0"
edition = "2021"
publish = false

[dependencies]
serde_json = "1"
rustfft = "6"
deep_filter = { version = "0.2", default-features = false }
ort = { version = "=2.0.0-rc.10", default-features = false, features = ["load-dynamic"] }
cpal = "0.15"
tungstenite = { version = "0.24", features = ["rustls-tls-webpki-roots"] }
ureq = "2"
wasm-bindgen = "0.2"
