[package]
name = "whcanrc-assisted-listening"
version = "0.1.0"
edition = "2021"
publish = false

[dependencies]
anyhow = "1"
audiopus = "0.2"
axum = "0.8"
axum-server = { version = "0.7", default-features = false, features = ["tls-rustls-no-provider"] }
base64 = "0.22"
clap = { version = "4", features = ["derive"] }
cpal = "0.15"
qrcode = { version = "0.14", default-features = false }
rcgen = "0.13"
rustls = { version = "0.23", default-features = false, features = ["ring", "std"] }
serde = { version = "1", features = ["derive"] }
socket2 = "0.5"
tokio = { version = "1", features = ["full"] }
toml = "0.8"
tower-http = { version = "0.6", features = ["cors"] }
tracing = "0.1"
tracing-subscriber = { version = "0.3", features = ["env-filter"] }
webrtc = "0.12"
wtransport = "0.6"
