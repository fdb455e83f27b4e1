[package]
name = "roblas"
version = "0.1.0"
edition = "2021"

[dependencies]
num-complex = "0.4"
num-traits = "0.2"
