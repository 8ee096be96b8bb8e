[package]
name = "gc_core"
version = "0.1.0"
edition = "2021"
publish = false

[dependencies]
parking_lot = "*"
