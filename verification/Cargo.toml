[package]
name = "amqp_core"
version = "0.1.0"
edition = "2021"
publish = false

[dependencies]
sasl = { version = "*", default-features = false }
parking_lot = "0.12"
