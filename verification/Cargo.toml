[package]
name = "ethertunnel"
version = "0.1.0"
edition = "2021"
publish = false

[dependencies]
async-tungstenite = { version = "=0.29.1", default-features = false, features = ["handshake", "futures-03-sink"] }
base64 = "=0.22.1"
clap = { version = "=4.6.7", features = ["derive"] }
directories = "=6.0.0"
ed25519-dalek = "=2.2.0"
futures = "=0.3.34"
http-body-util = "=0.1.5"
hyper = { version = "=1.12.0", features = ["server", "client", "http1"] }
hyper-rustls = { version = "=0.27.10", default-features = false, features = ["http1", "ring", "tls12", "webpki-tokio"] }
hyper-util = { version = "=0.1.21", features = ["client", "client-legacy", "http1", "tokio"] }
instant-acme = { version = "=0.8.5", default-features = false, features = ["hyper-rustls", "ring", "rcgen"] }
postcard = { version = "=1.1.3", features = ["use-std"] }
rand = "=0.8.8"
rcgen = { version = "=0.13.2", default-features = false, features = ["crypto", "pem", "ring"] }
rpassword = "=7.5.4"
rusqlite = { version = "=0.32.1", features = ["bundled"] }
rustls = { version = "=0.23.46", default-features = false, features = ["ring", "std", "tls12", "logging"] }
rustls-pemfile = "=2.2.0"
serde = { version = "=1.0.229", features = ["derive"] }
serde_json = "=1.0.154"
sha2 = "=0.10.9"
socket2 = { version = "=0.5.10", features = ["all"] }
subtle = "=2.6.1"
tokio = { version = "=1.54.1", features = ["full"] }
tokio-rustls = { version = "=0.26.6", default-features = false, features = ["ring", "tls12", "logging"] }
tokio-util = { version = "=0.7.20", features = ["compat", "rt"] }
toml = "=0.8.23"
webpki-roots = "=1.0.10"
x509-parser = "=0.16.0"
yamux = "=0.13.10"
