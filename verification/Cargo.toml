[package]
name = "livox_mid360"
version = "0.1.0"
edition = "2021"
publish = false

[dependencies]
bytemuck = "1"
clap = { version = "4", features = ["derive"] }
futures-util = "0.3"
glam = "*"
if-addrs = "*"
minifb = { version = "*", default-features = false, features = ["x11"] }
pyo3 = { version = "*", features = ["abi3-py312", "extension-module"] }
pyo3-async-runtimes = { version = "*", features = ["tokio-runtime"] }
thiserror = "2"
tokio = { version = "1", features = ["full"] }
tokio-tungstenite = "*"
