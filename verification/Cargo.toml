[package]
name = "model"
version = "0.1.0"
edition = "2021"
publish = false

[dependencies]
convert_case = "=0.6.0"
itertools = "=0.10.5"
async-std = "=1.13.2"
futures = "=0.3.34"
tokio-postgres = "=0.7.18"
tokio = { version = "=1.54.1", features = ["rt", "net", "time"] }
