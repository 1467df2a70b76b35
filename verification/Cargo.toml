[package]
name = "gateway_proxy"
version = "0.1.0"
edition = "2021"
publish = false

[dependencies]
time = "0.2"
tokio = { version = "1", features = ["rt-multi-thread", "sync", "time", "macros"] }
redis = { version = "0.21", features = ["tokio-comp"] }
lapin = "1"
hyper = { version = "0.14", features = ["server", "http1", "tcp"] }
prometheus = "0.13"
lazy_static = "1"
serde = { version = "1", features = ["derive"] }
serde_json = "1"
serde_repr = "0.1"
simd-json = "*"
futures-util = "0.3"
tracing = "0.1"
twilight-gateway = "0.6"
twilight-model = "0.6"
