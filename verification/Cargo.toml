[package]
name = "nr_dataplane"
version = "0.1.0"
edition = "2021"
publish = false

[dependencies]
pnet = "*"
crossbeam = "*"
log = "*"
env_logger = "*"
rustc-serialize = "*"
serde_json = "*"
