[package]
name = "vnt_channel"
version = "0.1.0"
edition = "2021"
publish = false

[dependencies]
crossbeam-utils = "0.8"
log = "0.4"
parking_lot = "0.12"
tokio = { version = "1", features = ["net", "sync", "rt", "macros", "time"] }
