[package]
name = "tty"
version = "0.1.0"
edition = "2021"
publish = false

[dependencies]
cortex-m-rt = "=0.7.7"
embedded-hal = "=1.0.0"
nb = "=1.1.0"
rp-pico = "=0.9.0"
