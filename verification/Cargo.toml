[package]
name = "funcfmt"
version = "0.1.0"
edition = "2021"
publish = false

[dependencies]
fnv = "1"
smallvec = "1"
smartstring = "1"
thiserror = "1"
