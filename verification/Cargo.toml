[package]
name = "bootloader"
version = "0.1.0"
edition = "2021"
publish = false

[dependencies]
uefi = "=0.28.0"
x86_64 = { version = "=0.15.5", default-features = false, features = ["instructions"] }
xmas-elf = "=0.9.1"
noto-sans-mono-bitmap = { version = "=0.3.2", default-features = false, features = ["regular", "size_20", "unicode-basic-latin", "unicode-specials"] }
log = "=0.4.34"
conquer-once = { version = "=0.4.0", default-features = false }
spinning_top = "=0.3.0"
spin = "=0.9.9"
lazy_static = { version = "=1.5.1", features = ["spin_no_std"] }
uart_16550 = "=0.3.2"
