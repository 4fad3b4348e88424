[package]
name = "szelfibox"
version = "0.1.0"
edition = "2021"
publish = false

[dependencies]
base64 = "0.22"
xxhash-rust = { version = "0.8", features = ["xxh3"] }
image = { version = "0.25", default-features = false, features = ["png"] }
qrcode = { version = "0.14", default-features = false, features = ["image"] }
log = "0.4"
simple_logger = "5"
glob = "0.3"
rppal = "*"
serialport = { version = "4", default-features = false }
tokio = { version = "1", features = ["fs", "io-util", "rt-multi-thread", "macros"] }
axum = "0.6"
gstreamer = "0.23"
gstreamer-app = "0.23"
dotenv_codegen = "0.15"
