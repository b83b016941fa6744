[package]
name = "nal_unit_parser"
version = "0.1.0"
edition = "2021"
publish = false

[dependencies]
futures = "=0.3.34"
tokio = { version = "=1.53.2", features = ["full"] }
warp = { version = "=0.4.3", features = ["server", "websocket"] }
