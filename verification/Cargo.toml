[package]
name = "k7s_lib"
version = "0.1.0"
edition = "2021"
publish = false

[dependencies]
tracing-subscriber = { version = "=0.3.23", features = ["env-filter"] }
tracing = "=0.1.44"
rustls = { version = "=0.23.46", default-features = false, features = ["ring", "std"] }
tokio = { version = "1", features = ["rt-multi-thread", "macros", "signal", "sync", "time"] }
kube = { version = "=2.0.1", default-features = false, features = ["client", "ring", "rustls-tls"] }
k8s-openapi = { version = "=0.26.1", features = ["latest"] }
reqwest = { version = "0.12", default-features = false }
chrono = { version = "0.4", default-features = false, features = ["now"] }
anyhow = "1"
