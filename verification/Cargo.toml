[package]
name = "patina_boot"
version = "0.1.0"
edition = "2021"
publish = false

[dependencies]
log = "0.4"
r-efi = "5"
spin = "0.10"
