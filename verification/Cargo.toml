[package]
name = "moonbeam"
version = "0.3.0"
edition = "2021"
publish = false

[dependencies]
httparse = "1"
percent-encoding = "2"
httpdate = "1"
futures-lite = "2"
async-io = "2"
async-net = "2"
async-executor = "1"
async-signal = "0.2"
blocking = "1"
flume = "0.11"
brotli = "8"
flate2 = "1"
async-compression = { version = "0.4", features = ["futures-io", "brotli", "gzip", "zlib"] }
rustls = { version = "0.23", default-features = false, features = ["ring", "std", "tls12", "logging"] }
futures-rustls = { version = "0.26", default-features = false, features = ["ring", "tls12", "logging"] }
rustls-pemfile = "2"
serde = "1"
serde_json = "1"
