[package]
name = "tikv_bridge"
version = "0.1.0"
edition = "2021"
publish = false

[dependencies]
tokio = { version = "=1.53.2", features = ["sync", "rt-multi-thread", "time"] }
futures = "=0.3.34"
lazy_static = "=1.5.1"
