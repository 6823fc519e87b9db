[package]
name = "kelpyshark_interpreter"
version = "0.1.0"
edition = "2021"
publish = false
