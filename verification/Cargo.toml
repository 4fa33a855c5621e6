[package]
name = "lance_reader"
version = "0.1.0"
edition = "2021"
publish = false

[dependencies]
arrow-arith = "34.0.0"
arrow-array = "34.0.0"
arrow-schema = "34.0.0"
byteorder = "1.4"
chrono = { version = "=0.4.38", default-features = false }
futures = "0.3"
object_store = "0.5"
prost = "0.11"
