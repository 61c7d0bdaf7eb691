[package]
name = "tick_scheduler"
version = "0.1.0"
edition = "2021"
publish = false

[dependencies]
cortex-m = "0.6"
cortex-m-rtfm = "0.5"
f3 = "0.6"
panic-halt = "0.2"
panic-semihosting = "0.5"
