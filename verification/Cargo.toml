[package]
name = "callao"
version = "0.1.0"
edition = "2021"
publish = false

[dependencies]
noodles-bam = { version = "*", features = ["async"] }
noodles-bgzf = { version = "*", features = ["async"] }
noodles-sam = { version = "*", features = ["async"] }
tokio = { version = "*", features = ["full"] }
futures = "*"
log = "*"
pyo3 = "*"
pyo3-log = "*"
