[package]
name = "xml5"
version = "0.1.0"
edition = "2021"
publish = false

[dependencies]
jetscii = "*"
encoding_rs = "*"
