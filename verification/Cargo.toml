[package]
name = "reel"
version = "0.1.0"
edition = "2021"
publish = false

[dependencies]
embassy-time = "=0.5.1"
embassy-sync = "=0.8.0"
embedded-graphics = "=0.8.2"
embedded-hal-async = "=1.0.0"
static_cell = "=2.1.1"
rmk = { version = "=0.9.0", features = ["display"] }
embassy-nrf = { version = "=0.11.0", default-features = false, features = ["nrf52840"] }
