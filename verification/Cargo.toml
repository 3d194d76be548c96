[package]
name = "logic_analyzer_processing"
version = "0.1.0"
edition = "2021"
publish = false

[dependencies]
blake3 = { version = "1", features = ["pure"] }
crossbeam-channel = "0.5"
pyo3 = { version = "0.27", features = ["abi3-py39"] }
rusb = "0.9"
thiserror = "2"
tracing = "0.1"
zip = { version = "2", default-features = false, features = ["deflate"] }
