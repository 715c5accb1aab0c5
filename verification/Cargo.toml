[package]
name = "osproxy"
version = "0.1.0"
edition = "2021"
publish = false

[dependencies]
serde_json = { version = "=1.0.154", features = ["raw_value"] }
serde = { version = "=1.0.229", features = ["derive"] }
bytes = "=1.12.1"
http-body = "=1.1.0"
http-body-util = "=0.1.5"
futures-util = "=0.3.34"
arc-swap = "=1.9.3"
thiserror = "=2.0.21"
chrono = "=0.4.45"
tokio = { version = "=1.54.1", features = ["rt", "sync", "time", "macros"] }
etcd-client = "=0.7.2"
krafka = "=0.28.1"
rskafka = { version = "=0.6.0", features = ["transport-tls"] }
rdkafka = { version = "*", default-features = false }
rustls = { version = "=0.23.46", default-features = false, features = ["std", "ring"] }
