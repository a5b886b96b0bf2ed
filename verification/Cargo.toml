[package]
name = "mmu"
version = "0.1.0"
edition = "2021"
publish = false

[dependencies]
anyhow = "1"
bitflags = "1"
bitvec = "1"
byteorder = "1"
thiserror = "1"
