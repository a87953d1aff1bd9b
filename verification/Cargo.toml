[package]
name = "hdr10plus_tool"
version = "0.1.0"
edition = "2021"
publish = false

[dependencies]
anyhow = "1"
bitvec_helpers = { version = "*", default-features = false, features = ["bitstream-io"] }
indicatif = "*"
thiserror = "*"
