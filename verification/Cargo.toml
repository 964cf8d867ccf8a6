[package]
name = "txpool"
version = "0.1.0"
edition = "2021"
publish = false

[dependencies]
ethereum-types = "0.9"
log = "0.4"
parking_lot = "0.11"
