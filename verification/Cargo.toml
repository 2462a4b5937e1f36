[package]
name = "barnes_hut"
version = "0.1.0"
edition = "2021"
publish = false

[dependencies]
rand = "0.8"
derive_more = "0.99"

[dev-dependencies]
rand_distr = "0.4"
