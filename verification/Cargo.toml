[package]
name = "magicalos"
version = "0.1.0"
edition = "2021"
publish = false

[dependencies]
slotmap = "1"
spin = "*"
log = "*"
crossbeam-queue = { version = "*", default-features = false, features = ["alloc"] }
pc-keyboard = "*"
lazy_static = { version = "*", features = ["spin_no_std"] }
bitflags = "2"
bit_field = "*"
