[package]
name = "icap_gateway"
version = "0.1.0"
edition = "2021"
publish = false

[dependencies]
async-trait = "0.1"
rand = "0.8"
tokio = { version = "1", features = ["io-util", "macros", "net", "rt-multi-thread", "time"] }
zmq = "0.10"
