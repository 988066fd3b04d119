[package]
name = "sfu_relay"
version = "0.1.0"
edition = "2021"
publish = false

[dependencies]
srtp = "*"
bytes = "*"
openssl = "*"
tokio = { version = "*", features = ["full"] }
tokio-openssl = "*"
webrtc-sdp = "*"
rand = "*"
futures = "*"
log = "*"
env_logger = "*"
actix-web = "*"
