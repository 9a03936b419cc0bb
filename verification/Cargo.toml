[package]
name = "peekio"
version = "0.1.0"
edition = "2021"
publish = false

[dependencies]
twoway = "0.2"
futures = "0.1"
tokio-io = "0.1"
bytes = "0.4"
