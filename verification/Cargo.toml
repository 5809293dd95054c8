[package]
name = "stream_field"
version = "0.1.0"
edition = "2021"

[dependencies]
image = { version = "0.24", default-features = false, features = ["png"] }
rand = "0.8"
rand_distr = "0.4"
scarlet = "*"
