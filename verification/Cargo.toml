[package]
name = "chaos_sim"
version = "0.1.0"
edition = "2021"

[dependencies]
plotters = "0.3"
rand = "0.8"
