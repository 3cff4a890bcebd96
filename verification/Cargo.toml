[package]
name = "kernel"
version = "0.1.0"
edition = "2021"
publish = false

[dependencies]
multiboot2 = "=0.28.0"
x86 = "=0.52.0"
spin = "=0.12.3"
tar-parser2 = "*"
