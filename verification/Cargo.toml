[package]
name = "keepldr"
version = "0.1.0"
edition = "2021"
publish = false

[dependencies]
openssl = "*"
sys-info = "*"
warp = { version = "*", features = ["tls"] }
tokio = { version = "*", features = ["rt", "macros"] }
log = "*"
env_logger = "*"

[dev-dependencies]
serde_cbor = "*"
