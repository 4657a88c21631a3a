[package]
name = "edf_to_csv"
version = "0.1.0"
edition = "2021"
publish = false

[dependencies]
csv = "1"
datetime = "*"
