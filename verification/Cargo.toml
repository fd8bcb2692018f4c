[package]
name = "fastloop"
version = "0.1.0"
edition = "2021"
publish = false

[dependencies]
crossbeam = "*"
slab = "*"
mio = { version = "*", features = ["net", "os-poll"] }
once_cell = "*"
parking_lot = "*"
