[package]
name = "cel_interpreter"
version = "0.1.0"
edition = "2021"
publish = false

[dependencies]
rust_decimal = "*"
cel-parser = "*"
