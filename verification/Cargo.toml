[package]
name = "minimqtt"
version = "0.1.0"
edition = "2021"
publish = false

[dependencies]
argh = "0.1"
bytes = "0.5"
futures-util = "0.3"
futures_codec = "0.4"
rand = "0.7"
thiserror = "1.0"
tokio = { version = "0.2", features = ["full"] }
tokio-util = { version = "0.3", features = ["codec"] }
