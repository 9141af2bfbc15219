[package]
name = "qp_sim_core"
version = "0.1.0"
edition = "2021"
publish = false

[dependencies]
bitvec = "1"
num-complex = { version = "0.4", features = ["bytemuck"] }
bytemuck = "1"
memmap2 = "*"
io-uring = "*"
libc = "0.2"
