[package]
name = "sl_console"
version = "0.1.0"
edition = "2021"
publish = false

[dependencies]
numtoa = "=1.0.1"
libc = "=0.2.190"
lazy_static = "=1.5.1"
parking_lot = "=0.12.5"
log = "*"
