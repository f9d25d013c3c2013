[package]
name = "tm25ray"
version = "0.1.1"
edition = "2021"
publish = false

[dependencies]
thiserror = "2"
memmap2 = "0.9"
