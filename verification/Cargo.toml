[package]
name = "celeste"
version = "0.1.0"
edition = "2021"
publish = false

[dependencies]
glob = "=0.3.4"
indexmap = "=1.9.3"
file-lock = "=2.1.11"
lazy_static = "=1.5.1"
hw-msg = "=0.4.1"
serde_json = "1"
time = { version = "0.3", features = ["parsing"] }
tr = { version = "*", default-features = false }
