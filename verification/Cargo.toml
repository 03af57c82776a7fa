[package]
name = "meter_decode"
version = "0.1.0"
edition = "2021"
publish = false

[dependencies]
flipperzero = "*"
flipperzero-rt = "*"
flipperzero-sys = "*"
heapless = "*"
libm = "*"
modular-bitfield = "*"
