[package]
name = "jmd"
version = "0.1.0"
edition = "2021"
publish = false

[dependencies]
ndarray = "0.16"
rand = "0.8"
rand_distr = "0.4"
