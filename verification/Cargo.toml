[package]
name = "elements_descriptor"
version = "0.1.0"
edition = "2021"
publish = false

[dependencies]
elements = "0.22"
