[package]
name = "bootloader"
version = "0.1.0"
edition = "2021"
publish = false

[dependencies]
anyhow = "=1.0.104"
clap = { version = "=4.6.7", features = ["derive"] }
fatfs = "=0.3.6"
gpt = "=4.1.0"
llvm-tools = "=0.1.1"
mbrman = "=0.6.1"
tempfile = "=3.27.0"
uefi = "=0.27.0"
uefi-services = { version = "=0.24.0", default-features = false }
