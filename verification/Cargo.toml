[package]
name = "alan_core"
version = "0.8.0"
edition = "2021"
publish = false

[dependencies]
crc32fast = "1"
crossbeam-queue = "0.3"
memmap2 = "0.9"
rand = "0.8"
zstd = "0.13"
