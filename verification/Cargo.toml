[package]
name = "docconfig"
version = "0.1.0"
edition = "2021"
publish = false

[dependencies]
proc-macro2 = "1"
quote = "1"
serde_derive_internals = "0.26"
syn = "1"
thiserror = "1"
