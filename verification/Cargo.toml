[package]
name = "osbuild_wire"
version = "0.1.0"
edition = "2021"
publish = false

[dependencies]
clap = { version = "*", features = ["derive"] }
log = "*"
stderrlog = "*"
pyo3 = "*"
cap-std = "*"
