[package]
name = "grpc-probe"
version = "0.3.0"
edition = "2021"
publish = false

[dependencies]
bytes = "1"
chrono = "0.4"
clap = { version = "4", features = ["derive"] }
csv = "1"
futures = "0.3"
h2 = "0.4"
hickory-resolver = "0.24"
http = "1"
rustls = { version = "0.23", default-features = false, features = ["std", "tls12", "ring"] }
serde = { version = "1", features = ["derive"] }
tokio = { version = "1", features = ["full"] }
tokio-rustls = { version = "0.26", default-features = false, features = ["tls12", "ring"] }
tracing-subscriber = { version = "0.3", features = ["env-filter"] }
x509-parser = "0.16"
