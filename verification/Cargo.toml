[package]
name = "lwip"
version = "0.1.0"
edition = "2021"
publish = false

[dependencies]
crossbeam-queue = "0.3"
futures = "0.3"
log = "0.4"
parking_lot_core = "0.9"
thiserror = "1"
tokio = { version = "1", features = ["sync", "rt", "time", "io-util"] }
