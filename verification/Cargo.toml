[package]
name = "lance_reader"
version = "0.1.0"
edition = "2021"
publish = false

[dependencies]
arrow2 = { version = "*", features = ["compute_take", "compute_arithmetics"] }
prost = "*"
byteorder = "*"
