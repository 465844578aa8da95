[package]
name = "pythia"
version = "0.1.0"
edition = "2021"
publish = false

[dependencies]
serde_json = "=1.0.154"
serde = { version = "=1.0.229", features = ["derive"] }
serde_bytes = "=0.11.19"
paginate = "=1.1.11"
url = "=2.5.8"
hex = "=0.4.3"
ic-web3-rs = "=0.1.11"
siwe = "=0.6.1"
candid = "=0.10.39"
ic-cdk = "=0.13.6"
ic-cdk-timers = "=0.11.1"
anyhow = "=1.0.104"
thiserror = "=1.0.69"
futures = "=0.3.34"
itertools = "=0.15.0"
num-bigint = "=0.4.8"
derive_builder = "=0.20.2"
jsonrpc-core = "=18.0.0"
tokio = { version = "=1.54.1", default-features = false, features = ["sync"] }
time = { version = "=0.3.55", features = ["formatting"] }
