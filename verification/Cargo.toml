[package]
name = "dht"
version = "0.1.0"
edition = "2021"
publish = false

[dependencies]
async-trait = "0.1"
lockfree = "=0.5.1"
log = "0.4"
rand = "=0.8.8"
tokio = { version = "1", default-features = false, features = ["rt", "sync"] }
