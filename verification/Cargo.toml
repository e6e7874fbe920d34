[package]
name = "aegis_proxy"
version = "0.1.0"
edition = "2021"
publish = false

[dependencies]
regex = "=1.13.1"
lru = "=0.19.0"
ipnetwork = "=0.21.1"
chrono = "=0.4.45"
base64 = "=0.22.1"
bcrypt = "=0.19.3"
serde = { version = "=1.0.229", features = ["derive"] }
serde_json = "=1.0.154"
toml = "=1.1.8"
serde_norway = "=0.9.42"
percent-encoding = "=2.3.2"
html-escape = "=0.3.0"
hex = "=0.4.3"
sha2 = "=0.10.9"
rand = "=0.8.8"
flate2 = "=1.1.10"
brotli = "=9.1.1"
aes-gcm = "=0.10.3"
x509-parser = "=0.18.1"
x509-cert = "=0.2.5"
x509-ocsp = { version = "=0.2.1", features = ["builder"] }
sha1 = { version = "=0.10.7", features = ["oid"] }
redb = "=4.4.0"
bincode = "=1.3.3"
metrics = "=0.24.6"
metrics-exporter-prometheus = { version = "=0.18.3", default-features = false }
tokio = { version = "=1.54.1", features = ["rt-multi-thread", "net", "io-util", "macros", "time", "signal", "sync", "fs"] }
hyper = { version = "=1.12.0", features = ["server", "client", "http1", "http2"] }
hyper-util = { version = "=0.1.21", features = ["tokio", "server", "client-legacy", "http1", "http2"] }
http-body-util = "=0.1.5"
