[package]
name = "yggstack"
version = "0.1.0"
edition = "2021"
publish = false

[dependencies]
bytes = "=1.12.1"
crossbeam-channel = "=0.5.17"
getopts = "=0.2.24"
hex = "=0.4.3"
quinn = { version = "=0.11.12", default-features = false, features = ["runtime-tokio", "rustls-ring"] }
rand = "=0.8.8"
rustls = { version = "=0.23.46", default-features = false, features = ["ring", "std"] }
serde_json = "=1.0.154"
smoltcp = "=0.11.0"
thiserror = "=1.0.69"
tokio = { version = "=1.54.1", features = ["full"] }
toml = "=0.8.23"
tracing = "=0.1.44"
tracing-subscriber = { version = "=0.3.23", features = ["env-filter"] }
