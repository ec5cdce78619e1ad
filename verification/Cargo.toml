[package]
name = "rmk_config_reel"
version = "0.1.0"
edition = "2021"
publish = false

[dependencies]
rmk = { version = "=0.9.0", features = ["display", "split"] }
rmk-types = "=0.4.0"
embassy-time = "=0.5.1"
embassy-sync = "=0.8.0"
embassy-futures = "=0.1.2"
embassy-executor = "=0.10.0"
embassy-usb = "=0.6.0"
embassy-nrf = { version = "=0.11.0", features = ["nrf52840"] }
embassy-embedded-hal = "=0.6.0"
embedded-graphics = "=0.8.2"
embedded-hal-async = "=1.0.0"
embedded-storage-async = "=0.4.2"
static_cell = "=2.1.1"
cortex-m = "=0.7.10"
defmt = "=1.2.0"
defmt-rtt = "=1.3.1"
panic-probe = "=1.0.0"
nrf-sdc = "=0.4.0"
nrf-mpsl = "=0.4.0"
