[package]
name = "bonanza-bridge-fw"
version = "0.1.0"
edition = "2021"
publish = false

[dependencies]
heapless = "0.8"
defmt = "*"
defmt-rtt = "*"
panic-probe = { version = "*", features = ["print-defmt"] }
embassy-executor = "*"
embassy-rp = { version = "*", features = ["rp2040", "time-driver", "critical-section-impl", "unstable-pac"] }
embassy-sync = "*"
embassy-time = "*"
embedded-io-async = "*"
fixed = "*"
pio-proc = "*"
portable-atomic = { version = "*", features = ["critical-section"] }
static_cell = "*"
