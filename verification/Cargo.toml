[package]
name = "filer"
version = "0.1.0"
edition = "2021"
publish = false

[dependencies]
sha2 = "*"
tokio = { version = "*", features = ["full"] }
axum = "*"
axum-server = { version = "*", features = ["tls-rustls"] }
serde_json = "*"
num_cpus = "*"
byte-unit = "*"
chrono = "*"
