[package]
name = "chain_engine"
version = "0.1.0"
edition = "2021"
publish = false

[dependencies]
chrono = "0.4"
fdlimit = "0.2"
pprof = { version = "*", features = ["flamegraph"] }
tempfile = "3"
crossbeam-channel = "0.5"
parking_lot = { version = "0.12", features = ["deadlock_detection"] }
log = "0.4"
