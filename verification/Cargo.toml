[package]
name = "chaotic_carbon_networks"
version = "0.1.0"
edition = "2021"

[dependencies]
ndarray = "*"
rayon = "*"
