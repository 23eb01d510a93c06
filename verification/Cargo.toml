[package]
name = "mqttsn_client"
version = "0.1.0"
edition = "2021"
publish = false

[dependencies]
mqtt-sn = "*"
byte = "*"
heapless = "*"
hex = "*"
tokio = { version = "*", features = ["net", "rt", "time", "sync", "macros", "io-util"] }
serde_yaml = "*"
log = "*"
env_logger = "*"
openssl = "*"
openssl-errors = "*"
tokio-dtls-stream-sink = "*"
