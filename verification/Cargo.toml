[package]
name = "delayqueue"
version = "0.1.0"
edition = "2021"

[dependencies]
parking_lot = "=0.12.5"
chrono = "=0.4.45"
rand = "=0.8.8"

[dev-dependencies]
crossbeam-utils = "0.8"
