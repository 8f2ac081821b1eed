[package]
name = "aya_metrics"
version = "0.1.0"
edition = "2021"
publish = false

[dependencies]
aya = "*"
aya-log = "*"
futures = "*"
thiserror = "*"
tokio = { version = "*", default-features = false, features = ["time", "rt", "sync"] }
