[package]
name = "homelab-dns"
version = "0.1.0"
edition = "2021"
publish = false

[dependencies]
anyhow = "1"
clap = { version = "4", features = ["derive"] }
futures = "0.3"
hickory-proto = "=0.24.4"
hickory-server = "=0.24.4"
humantime = "2"
json-patch = "=2.0.0"
k8s-openapi = { version = "=0.23.0", features = ["v1_30"] }
kube = { version = "=0.96.0", default-features = false, features = ["client", "runtime", "rustls-tls"] }
tokio = { version = "1", features = ["macros", "net", "rt-multi-thread"] }
tracing = { version = "0.1", features = ["log"] }
tracing-subscriber = "0.3"
