[package]
name = "rustos"
version = "0.1.0"
edition = "2021"
publish = false

[dependencies]
x86_64 = { version = "=0.14.13", default-features = false, features = ["instructions"] }
volatile = "=0.2.7"
spin = "=0.5.2"
uart_16550 = "=0.2.19"
pic8259 = { version = "=0.10.4", default-features = false }
pc-keyboard = "=0.7.0"
lazy_static = "=1.5.1"
crossbeam-queue = { version = "=0.3.14", default-features = false, features = ["alloc"] }
bootloader = { version = "=0.9.35", features = ["map_physical_memory"] }
