[package]
name = "shared"
version = "0.1.0"
edition = "2021"
publish = false

[dependencies]
postcard = { version = "=1.1.3", features = ["alloc"] }
serde = { version = "=1.0.229", default-features = false, features = ["derive", "alloc"] }
usbd-hid = "=0.10.2"
keycode = "=1.0.0"
usb-device = "=0.3.2"
embedded-hal = "=1.0.0"
critical-section = "=1.2.0"
cortex-m = "=0.7.10"
cortex-m-rt = "=0.7.7"
embedded-alloc = "=0.7.0"
embassy-executor = "=0.10.0"
embassy-sync = "=0.8.0"
embassy-time = "=0.5.1"
embassy-rp = { version = "=0.10.0", features = ["rp2040"] }
embassy-usb = { version = "*", features = ["usbd-hid"] }
rp-pico = "=0.9.0"
defmt = "=1.2.0"
defmt-rtt = "=1.3.1"
panic-probe = "=1.0.0"
