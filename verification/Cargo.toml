[package]
name = "lyth"
version = "0.1.0"
edition = "2021"
publish = false

[dependencies]
regex = "=1.13.1"
llvm-sys = { version = "=231.0.1", features = ["no-llvm-linking"] }
