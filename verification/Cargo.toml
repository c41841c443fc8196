[package]
name = "bitmachine"
version = "0.1.0"
edition = "2021"
publish = false

[dependencies]
anyhow = "1"
libc = "0.2"
pest = "2"
pest_derive = "2"
thiserror = "1"
