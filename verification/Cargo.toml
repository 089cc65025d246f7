[package]
name = "gemserv"
version = "0.1.0"
edition = "2021"
publish = false

[dependencies]
url = "=2.5.8"
sha2 = "=0.10.9"
x509-parser = "=0.14.0"
new_mime_guess = "=4.0.4"
tokio = { version = "=1.53.2", features = ["full"] }
tokio-rustls = "=0.23.4"
rustls = { version = "=0.20.9", features = ["dangerous_configuration"] }
rustls-pemfile = "=1.0.4"
futures-util = "=0.3.34"
log = "=0.4.34"
simple_logger = "=2.3.0"
toml = "=0.5.11"
serde = "=1.0.229"
serde_derive = "=1.0.229"
